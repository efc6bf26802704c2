//! The decisions behind the PMS shell commands (PMS 12.3) and the EAPI
//! feature predicates of portage's `eapi.sh`: what each command prints or
//! returns, and which default phase implementation an EAPI uses.
use vstd::prelude::*;

use crate::text::{
    cat, chars_of, eq_str, occurs_at, parse_u64, parse_u64_spec, push_chars, push_str,
    split_words, string_of, words,
};
use crate::util::strings_view;

verus! {

// ───────────────────────────── numbers ───────────────────────────────────────

/// `u32::from_str`.
pub open spec fn parse_u32_spec(s: Seq<char>) -> Option<u32> {
    match parse_u64_spec(s) {
        Some(v) => if v <= u32::MAX {
            Some(v as u32)
        } else {
            None
        },
        None => None,
    }
}

/// `s.parse::<u32>().unwrap_or(0)`: how the shell commands read an EAPI.
pub open spec fn eapi_number(s: Seq<char>) -> u32 {
    match parse_u32_spec(s) {
        Some(v) => v,
        None => 0,
    }
}

/// An EAPI number from its text; `0` when it does not parse.
pub fn eapi_number_of(s: &str) -> (r: u32)
    ensures
        r == eapi_number(s@),
{
    let v = chars_of(s);
    match parse_u64(v.as_slice()) {
        Some(x) => if x <= 0xffff_ffffu64 {
            x as u32
        } else {
            0
        },
        None => 0,
    }
}

// ───────────────────────────── EAPI predicates ───────────────────────────────

/// The EAPIs that have a feature: the range `lo..=hi` for each `___eapi_*`
/// predicate of portage's `eapi.sh`; `None` for an unknown name.
pub open spec fn eapi_feature_range(name: Seq<char>) -> Option<(u32, u32)> {
    let all = u32::MAX;
    if name == "___eapi_default_src_test_disables_parallel_jobs"@ { Some((0, 4)) }
    else if name == "___eapi_has_S_WORKDIR_fallback"@ { Some((0, 3)) }
    else if name == "___eapi_has_pkg_pretend"@ { Some((4, all)) }
    else if name == "___eapi_has_src_configure"@ { Some((2, all)) }
    else if name == "___eapi_has_src_prepare"@ { Some((2, all)) }
    else if name == "___eapi_has_BDEPEND"@ { Some((7, all)) }
    else if name == "___eapi_has_BROOT"@ { Some((7, all)) }
    else if name == "___eapi_has_IDEPEND"@ { Some((8, all)) }
    else if name == "___eapi_has_PORTDIR_ECLASSDIR"@ { Some((0, 6)) }
    else if name == "___eapi_has_RDEPEND_DEPEND_fallback"@ { Some((0, 3)) }
    else if name == "___eapi_has_SYSROOT"@ { Some((7, all)) }
    else if name == "___eapi_has_accumulated_PROPERTIES"@ { Some((8, all)) }
    else if name == "___eapi_has_accumulated_RESTRICT"@ { Some((8, all)) }
    else if name == "___eapi_has_prefix_variables"@ { Some((3, all)) }
    else if name == "___eapi_has_assert"@ { Some((0, 8)) }
    else if name == "___eapi_has_docompress"@ { Some((4, all)) }
    else if name == "___eapi_has_dohard"@ { Some((0, 3)) }
    else if name == "___eapi_has_doheader"@ { Some((5, all)) }
    else if name == "___eapi_has_dohtml"@ { Some((0, 6)) }
    else if name == "___eapi_has_dolib_libopts"@ { Some((0, 6)) }
    else if name == "___eapi_has_domo"@ { Some((0, 8)) }
    else if name == "___eapi_has_dosed"@ { Some((0, 3)) }
    else if name == "___eapi_has_dostrip"@ { Some((7, all)) }
    else if name == "___eapi_has_eapply"@ { Some((6, all)) }
    else if name == "___eapi_has_eapply_user"@ { Some((6, all)) }
    else if name == "___eapi_has_edo"@ { Some((9, all)) }
    else if name == "___eapi_has_einstall"@ { Some((0, 5)) }
    else if name == "___eapi_has_einstalldocs"@ { Some((6, all)) }
    else if name == "___eapi_has_get_libdir"@ { Some((6, all)) }
    else if name == "___eapi_has_hasq"@ { Some((0, 7)) }
    else if name == "___eapi_has_hasv"@ { Some((0, 7)) }
    else if name == "___eapi_has_in_iuse"@ { Some((6, all)) }
    else if name == "___eapi_has_nonfatal"@ { Some((4, all)) }
    else if name == "___eapi_has_pipestatus"@ { Some((9, all)) }
    else if name == "___eapi_has_useq"@ { Some((0, 7)) }
    else if name == "___eapi_has_usex"@ { Some((5, all)) }
    else if name == "___eapi_has_ver_replacing"@ { Some((9, all)) }
    else if name == "___eapi_has_version_functions"@ { Some((7, all)) }
    else if name == "___eapi_best_version_and_has_version_support_--host-root"@ { Some((5, 6)) }
    else if name == "___eapi_best_version_and_has_version_support_-b_-d_-r"@ { Some((7, all)) }
    else if name == "___eapi_die_can_respect_nonfatal"@ { Some((6, all)) }
    else if name == "___eapi_doconfd_respects_insopts"@ { Some((0, 7)) }
    else if name == "___eapi_dodoc_supports_-r"@ { Some((4, all)) }
    else if name == "___eapi_doenvd_respects_insopts"@ { Some((0, 7)) }
    else if name == "___eapi_doheader_respects_insopts"@ { Some((0, 7)) }
    else if name == "___eapi_doinitd_respects_exeopts"@ { Some((0, 7)) }
    else if name == "___eapi_doins_and_newins_preserve_symlinks"@ { Some((4, all)) }
    else if name == "___eapi_domo_respects_into"@ { Some((0, 6)) }
    else if name == "___eapi_econf_passes_--datarootdir"@ { Some((8, all)) }
    else if name == "___eapi_econf_passes_--disable-dependency-tracking"@ { Some((4, all)) }
    else if name == "___eapi_econf_passes_--disable-silent-rules"@ { Some((5, all)) }
    else if name == "___eapi_econf_passes_--disable-static"@ { Some((8, all)) }
    else if name == "___eapi_econf_passes_--docdir_and_--htmldir"@ { Some((6, all)) }
    else if name == "___eapi_econf_passes_--with-sysroot"@ { Some((7, all)) }
    else if name == "___eapi_has_DESTTREE_INSDESTTREE"@ { Some((0, 6)) }
    else if name == "___eapi_has_dosym_r"@ { Some((8, all)) }
    else if name == "___eapi_helpers_can_die"@ { Some((4, all)) }
    else if name == "___eapi_newins_supports_reading_from_standard_input"@ { Some((5, all)) }
    else if name == "___eapi_unpack_is_case_sensitive"@ { Some((0, 5)) }
    else if name == "___eapi_unpack_supports_7z"@ { Some((0, 7)) }
    else if name == "___eapi_unpack_supports_absolute_paths"@ { Some((6, all)) }
    else if name == "___eapi_unpack_supports_lha"@ { Some((0, 7)) }
    else if name == "___eapi_unpack_supports_rar"@ { Some((0, 7)) }
    else if name == "___eapi_unpack_supports_txz"@ { Some((6, all)) }
    else if name == "___eapi_unpack_supports_xz"@ { Some((3, all)) }
    else if name == "___eapi_use_enable_and_use_with_support_empty_third_argument"@ { Some((4, all)) }
    else if name == "___eapi_usev_has_second_arg"@ { Some((8, all)) }
    else if name == "___eapi_bash_3_2"@ { Some((0, 5)) }
    else if name == "___eapi_bash_4_2"@ { Some((6, 7)) }
    else if name == "___eapi_bash_5_0"@ { Some((8, 8)) }
    else if name == "___eapi_bash_5_3"@ { Some((9, all)) }
    else if name == "___eapi_enables_failglob_in_global_scope"@ { Some((6, all)) }
    else if name == "___eapi_has_ENV_UNSET"@ { Some((7, all)) }
    else if name == "___eapi_has_strict_keepdir"@ { Some((8, all)) }
    else { None }
}

/// Whether EAPI `eapi` has the feature the predicate `name` asks about.
pub open spec fn eapi_predicate_spec(name: Seq<char>, eapi: u32) -> bool {
    match eapi_feature_range(name) {
        Some((lo, hi)) => lo <= eapi && eapi <= hi,
        None => false,
    }
}

/// The EAPI range of a feature predicate.
pub fn eapi_feature_range_of(name: &str) -> (r: Option<(u32, u32)>)
    ensures
        r == eapi_feature_range(name@),
{
    let all = u32::MAX;
    let n = chars_of(name);
    let n = n.as_slice();
    if eq_str(n, "___eapi_default_src_test_disables_parallel_jobs") { Some((0, 4)) }
    else if eq_str(n, "___eapi_has_S_WORKDIR_fallback") { Some((0, 3)) }
    else if eq_str(n, "___eapi_has_pkg_pretend") { Some((4, all)) }
    else if eq_str(n, "___eapi_has_src_configure") { Some((2, all)) }
    else if eq_str(n, "___eapi_has_src_prepare") { Some((2, all)) }
    else if eq_str(n, "___eapi_has_BDEPEND") { Some((7, all)) }
    else if eq_str(n, "___eapi_has_BROOT") { Some((7, all)) }
    else if eq_str(n, "___eapi_has_IDEPEND") { Some((8, all)) }
    else if eq_str(n, "___eapi_has_PORTDIR_ECLASSDIR") { Some((0, 6)) }
    else if eq_str(n, "___eapi_has_RDEPEND_DEPEND_fallback") { Some((0, 3)) }
    else if eq_str(n, "___eapi_has_SYSROOT") { Some((7, all)) }
    else if eq_str(n, "___eapi_has_accumulated_PROPERTIES") { Some((8, all)) }
    else if eq_str(n, "___eapi_has_accumulated_RESTRICT") { Some((8, all)) }
    else if eq_str(n, "___eapi_has_prefix_variables") { Some((3, all)) }
    else if eq_str(n, "___eapi_has_assert") { Some((0, 8)) }
    else if eq_str(n, "___eapi_has_docompress") { Some((4, all)) }
    else if eq_str(n, "___eapi_has_dohard") { Some((0, 3)) }
    else if eq_str(n, "___eapi_has_doheader") { Some((5, all)) }
    else if eq_str(n, "___eapi_has_dohtml") { Some((0, 6)) }
    else if eq_str(n, "___eapi_has_dolib_libopts") { Some((0, 6)) }
    else if eq_str(n, "___eapi_has_domo") { Some((0, 8)) }
    else if eq_str(n, "___eapi_has_dosed") { Some((0, 3)) }
    else if eq_str(n, "___eapi_has_dostrip") { Some((7, all)) }
    else if eq_str(n, "___eapi_has_eapply") { Some((6, all)) }
    else if eq_str(n, "___eapi_has_eapply_user") { Some((6, all)) }
    else if eq_str(n, "___eapi_has_edo") { Some((9, all)) }
    else if eq_str(n, "___eapi_has_einstall") { Some((0, 5)) }
    else if eq_str(n, "___eapi_has_einstalldocs") { Some((6, all)) }
    else if eq_str(n, "___eapi_has_get_libdir") { Some((6, all)) }
    else if eq_str(n, "___eapi_has_hasq") { Some((0, 7)) }
    else if eq_str(n, "___eapi_has_hasv") { Some((0, 7)) }
    else if eq_str(n, "___eapi_has_in_iuse") { Some((6, all)) }
    else if eq_str(n, "___eapi_has_nonfatal") { Some((4, all)) }
    else if eq_str(n, "___eapi_has_pipestatus") { Some((9, all)) }
    else if eq_str(n, "___eapi_has_useq") { Some((0, 7)) }
    else if eq_str(n, "___eapi_has_usex") { Some((5, all)) }
    else if eq_str(n, "___eapi_has_ver_replacing") { Some((9, all)) }
    else if eq_str(n, "___eapi_has_version_functions") { Some((7, all)) }
    else if eq_str(n, "___eapi_best_version_and_has_version_support_--host-root") { Some((5, 6)) }
    else if eq_str(n, "___eapi_best_version_and_has_version_support_-b_-d_-r") { Some((7, all)) }
    else if eq_str(n, "___eapi_die_can_respect_nonfatal") { Some((6, all)) }
    else if eq_str(n, "___eapi_doconfd_respects_insopts") { Some((0, 7)) }
    else if eq_str(n, "___eapi_dodoc_supports_-r") { Some((4, all)) }
    else if eq_str(n, "___eapi_doenvd_respects_insopts") { Some((0, 7)) }
    else if eq_str(n, "___eapi_doheader_respects_insopts") { Some((0, 7)) }
    else if eq_str(n, "___eapi_doinitd_respects_exeopts") { Some((0, 7)) }
    else if eq_str(n, "___eapi_doins_and_newins_preserve_symlinks") { Some((4, all)) }
    else if eq_str(n, "___eapi_domo_respects_into") { Some((0, 6)) }
    else if eq_str(n, "___eapi_econf_passes_--datarootdir") { Some((8, all)) }
    else if eq_str(n, "___eapi_econf_passes_--disable-dependency-tracking") { Some((4, all)) }
    else if eq_str(n, "___eapi_econf_passes_--disable-silent-rules") { Some((5, all)) }
    else if eq_str(n, "___eapi_econf_passes_--disable-static") { Some((8, all)) }
    else if eq_str(n, "___eapi_econf_passes_--docdir_and_--htmldir") { Some((6, all)) }
    else if eq_str(n, "___eapi_econf_passes_--with-sysroot") { Some((7, all)) }
    else if eq_str(n, "___eapi_has_DESTTREE_INSDESTTREE") { Some((0, 6)) }
    else if eq_str(n, "___eapi_has_dosym_r") { Some((8, all)) }
    else if eq_str(n, "___eapi_helpers_can_die") { Some((4, all)) }
    else if eq_str(n, "___eapi_newins_supports_reading_from_standard_input") { Some((5, all)) }
    else if eq_str(n, "___eapi_unpack_is_case_sensitive") { Some((0, 5)) }
    else if eq_str(n, "___eapi_unpack_supports_7z") { Some((0, 7)) }
    else if eq_str(n, "___eapi_unpack_supports_absolute_paths") { Some((6, all)) }
    else if eq_str(n, "___eapi_unpack_supports_lha") { Some((0, 7)) }
    else if eq_str(n, "___eapi_unpack_supports_rar") { Some((0, 7)) }
    else if eq_str(n, "___eapi_unpack_supports_txz") { Some((6, all)) }
    else if eq_str(n, "___eapi_unpack_supports_xz") { Some((3, all)) }
    else if eq_str(n, "___eapi_use_enable_and_use_with_support_empty_third_argument") { Some((4, all)) }
    else if eq_str(n, "___eapi_usev_has_second_arg") { Some((8, all)) }
    else if eq_str(n, "___eapi_bash_3_2") { Some((0, 5)) }
    else if eq_str(n, "___eapi_bash_4_2") { Some((6, 7)) }
    else if eq_str(n, "___eapi_bash_5_0") { Some((8, 8)) }
    else if eq_str(n, "___eapi_bash_5_3") { Some((9, all)) }
    else if eq_str(n, "___eapi_enables_failglob_in_global_scope") { Some((6, all)) }
    else if eq_str(n, "___eapi_has_ENV_UNSET") { Some((7, all)) }
    else if eq_str(n, "___eapi_has_strict_keepdir") { Some((8, all)) }
    else { None }
}

/// Whether EAPI `eapi` has the feature that the predicate `name` asks about;
/// unknown names are false.
pub fn eapi_predicate(name: &str, eapi: u32) -> (r: bool)
    ensures
        r == eapi_predicate_spec(name@, eapi),
{
    match eapi_feature_range_of(name) {
        Some((lo, hi)) => lo <= eapi && eapi <= hi,
        None => false,
    }
}

/// The EAPI a predicate command asks about: its argument when given,
/// otherwise `$EAPI`, each read as a number (`0` when unset or unparsable).
pub fn predicate_eapi(arg: Option<&str>, eapi_var: Option<&str>) -> (r: u32)
    ensures
        r == (match crate::util::opt_view(arg) {
            Some(a) => eapi_number(a),
            None => match crate::util::opt_view(eapi_var) {
                Some(e) => eapi_number(e),
                None => 0,
            },
        }),
{
    match arg {
        Some(a) => eapi_number_of(a),
        None => match eapi_var {
            Some(e) => eapi_number_of(e),
            None => 0,
        },
    }
}

/// What each feature predicate of portage's `eapi.sh` answers for an EAPI,
/// from the EAPI that introduced the feature (and up to the last that has
/// it): every known predicate answers by its EAPI range, never as unknown.
pub proof fn lemma_feature_predicates(e: u32)
    ensures
        eapi_predicate_spec("___eapi_default_src_test_disables_parallel_jobs"@, e) == (e <= 4),
        eapi_predicate_spec("___eapi_has_S_WORKDIR_fallback"@, e) == (e <= 3),
        eapi_predicate_spec("___eapi_has_pkg_pretend"@, e) == (4 <= e),
        eapi_predicate_spec("___eapi_has_src_configure"@, e) == (2 <= e),
        eapi_predicate_spec("___eapi_has_src_prepare"@, e) == (2 <= e),
        eapi_predicate_spec("___eapi_has_BDEPEND"@, e) == (7 <= e),
        eapi_predicate_spec("___eapi_has_BROOT"@, e) == (7 <= e),
        eapi_predicate_spec("___eapi_has_IDEPEND"@, e) == (8 <= e),
        eapi_predicate_spec("___eapi_has_PORTDIR_ECLASSDIR"@, e) == (e <= 6),
        eapi_predicate_spec("___eapi_has_RDEPEND_DEPEND_fallback"@, e) == (e <= 3),
        eapi_predicate_spec("___eapi_has_SYSROOT"@, e) == (7 <= e),
        eapi_predicate_spec("___eapi_has_accumulated_PROPERTIES"@, e) == (8 <= e),
        eapi_predicate_spec("___eapi_has_accumulated_RESTRICT"@, e) == (8 <= e),
        eapi_predicate_spec("___eapi_has_prefix_variables"@, e) == (3 <= e),
        eapi_predicate_spec("___eapi_has_assert"@, e) == (e <= 8),
        eapi_predicate_spec("___eapi_has_docompress"@, e) == (4 <= e),
        eapi_predicate_spec("___eapi_has_dohard"@, e) == (e <= 3),
        eapi_predicate_spec("___eapi_has_doheader"@, e) == (5 <= e),
        eapi_predicate_spec("___eapi_has_dohtml"@, e) == (e <= 6),
        eapi_predicate_spec("___eapi_has_dolib_libopts"@, e) == (e <= 6),
        eapi_predicate_spec("___eapi_has_domo"@, e) == (e <= 8),
        eapi_predicate_spec("___eapi_has_dosed"@, e) == (e <= 3),
        eapi_predicate_spec("___eapi_has_dostrip"@, e) == (7 <= e),
        eapi_predicate_spec("___eapi_has_eapply"@, e) == (6 <= e),
        eapi_predicate_spec("___eapi_has_eapply_user"@, e) == (6 <= e),
        eapi_predicate_spec("___eapi_has_edo"@, e) == (9 <= e),
        eapi_predicate_spec("___eapi_has_einstall"@, e) == (e <= 5),
        eapi_predicate_spec("___eapi_has_einstalldocs"@, e) == (6 <= e),
        eapi_predicate_spec("___eapi_has_get_libdir"@, e) == (6 <= e),
        eapi_predicate_spec("___eapi_has_hasq"@, e) == (e <= 7),
        eapi_predicate_spec("___eapi_has_hasv"@, e) == (e <= 7),
        eapi_predicate_spec("___eapi_has_in_iuse"@, e) == (6 <= e),
        eapi_predicate_spec("___eapi_has_nonfatal"@, e) == (4 <= e),
        eapi_predicate_spec("___eapi_has_pipestatus"@, e) == (9 <= e),
        eapi_predicate_spec("___eapi_has_useq"@, e) == (e <= 7),
        eapi_predicate_spec("___eapi_has_usex"@, e) == (5 <= e),
        eapi_predicate_spec("___eapi_has_ver_replacing"@, e) == (9 <= e),
        eapi_predicate_spec("___eapi_has_version_functions"@, e) == (7 <= e),
        eapi_predicate_spec("___eapi_best_version_and_has_version_support_--host-root"@, e) == (5 <= e && e <= 6),
        eapi_predicate_spec("___eapi_best_version_and_has_version_support_-b_-d_-r"@, e) == (7 <= e),
        eapi_predicate_spec("___eapi_die_can_respect_nonfatal"@, e) == (6 <= e),
        eapi_predicate_spec("___eapi_doconfd_respects_insopts"@, e) == (e <= 7),
        eapi_predicate_spec("___eapi_dodoc_supports_-r"@, e) == (4 <= e),
        eapi_predicate_spec("___eapi_doenvd_respects_insopts"@, e) == (e <= 7),
        eapi_predicate_spec("___eapi_doheader_respects_insopts"@, e) == (e <= 7),
        eapi_predicate_spec("___eapi_doinitd_respects_exeopts"@, e) == (e <= 7),
        eapi_predicate_spec("___eapi_doins_and_newins_preserve_symlinks"@, e) == (4 <= e),
        eapi_predicate_spec("___eapi_domo_respects_into"@, e) == (e <= 6),
        eapi_predicate_spec("___eapi_econf_passes_--datarootdir"@, e) == (8 <= e),
        eapi_predicate_spec("___eapi_econf_passes_--disable-dependency-tracking"@, e) == (4 <= e),
        eapi_predicate_spec("___eapi_econf_passes_--disable-silent-rules"@, e) == (5 <= e),
        eapi_predicate_spec("___eapi_econf_passes_--disable-static"@, e) == (8 <= e),
        eapi_predicate_spec("___eapi_econf_passes_--docdir_and_--htmldir"@, e) == (6 <= e),
        eapi_predicate_spec("___eapi_econf_passes_--with-sysroot"@, e) == (7 <= e),
        eapi_predicate_spec("___eapi_has_DESTTREE_INSDESTTREE"@, e) == (e <= 6),
        eapi_predicate_spec("___eapi_has_dosym_r"@, e) == (8 <= e),
        eapi_predicate_spec("___eapi_helpers_can_die"@, e) == (4 <= e),
        eapi_predicate_spec("___eapi_newins_supports_reading_from_standard_input"@, e) == (5 <= e),
        eapi_predicate_spec("___eapi_unpack_is_case_sensitive"@, e) == (e <= 5),
        eapi_predicate_spec("___eapi_unpack_supports_7z"@, e) == (e <= 7),
        eapi_predicate_spec("___eapi_unpack_supports_absolute_paths"@, e) == (6 <= e),
        eapi_predicate_spec("___eapi_unpack_supports_lha"@, e) == (e <= 7),
        eapi_predicate_spec("___eapi_unpack_supports_rar"@, e) == (e <= 7),
        eapi_predicate_spec("___eapi_unpack_supports_txz"@, e) == (6 <= e),
        eapi_predicate_spec("___eapi_unpack_supports_xz"@, e) == (3 <= e),
        eapi_predicate_spec("___eapi_use_enable_and_use_with_support_empty_third_argument"@, e) == (4 <= e),
        eapi_predicate_spec("___eapi_usev_has_second_arg"@, e) == (8 <= e),
        eapi_predicate_spec("___eapi_bash_3_2"@, e) == (e <= 5),
        eapi_predicate_spec("___eapi_bash_4_2"@, e) == (6 <= e && e <= 7),
        eapi_predicate_spec("___eapi_bash_5_0"@, e) == (8 <= e && e <= 8),
        eapi_predicate_spec("___eapi_bash_5_3"@, e) == (9 <= e),
        eapi_predicate_spec("___eapi_enables_failglob_in_global_scope"@, e) == (6 <= e),
        eapi_predicate_spec("___eapi_has_ENV_UNSET"@, e) == (7 <= e),
        eapi_predicate_spec("___eapi_has_strict_keepdir"@, e) == (8 <= e),
{
    reveal_strlit("___eapi_default_src_test_disables_parallel_jobs");
    reveal_strlit("___eapi_has_S_WORKDIR_fallback");
    reveal_strlit("___eapi_has_pkg_pretend");
    reveal_strlit("___eapi_has_src_configure");
    reveal_strlit("___eapi_has_src_prepare");
    reveal_strlit("___eapi_has_BDEPEND");
    reveal_strlit("___eapi_has_BROOT");
    reveal_strlit("___eapi_has_IDEPEND");
    reveal_strlit("___eapi_has_PORTDIR_ECLASSDIR");
    reveal_strlit("___eapi_has_RDEPEND_DEPEND_fallback");
    reveal_strlit("___eapi_has_SYSROOT");
    reveal_strlit("___eapi_has_accumulated_PROPERTIES");
    reveal_strlit("___eapi_has_accumulated_RESTRICT");
    reveal_strlit("___eapi_has_prefix_variables");
    reveal_strlit("___eapi_has_assert");
    reveal_strlit("___eapi_has_docompress");
    reveal_strlit("___eapi_has_dohard");
    reveal_strlit("___eapi_has_doheader");
    reveal_strlit("___eapi_has_dohtml");
    reveal_strlit("___eapi_has_dolib_libopts");
    reveal_strlit("___eapi_has_domo");
    reveal_strlit("___eapi_has_dosed");
    reveal_strlit("___eapi_has_dostrip");
    reveal_strlit("___eapi_has_eapply");
    reveal_strlit("___eapi_has_eapply_user");
    reveal_strlit("___eapi_has_edo");
    reveal_strlit("___eapi_has_einstall");
    reveal_strlit("___eapi_has_einstalldocs");
    reveal_strlit("___eapi_has_get_libdir");
    reveal_strlit("___eapi_has_hasq");
    reveal_strlit("___eapi_has_hasv");
    reveal_strlit("___eapi_has_in_iuse");
    reveal_strlit("___eapi_has_nonfatal");
    reveal_strlit("___eapi_has_pipestatus");
    reveal_strlit("___eapi_has_useq");
    reveal_strlit("___eapi_has_usex");
    reveal_strlit("___eapi_has_ver_replacing");
    reveal_strlit("___eapi_has_version_functions");
    reveal_strlit("___eapi_best_version_and_has_version_support_--host-root");
    reveal_strlit("___eapi_best_version_and_has_version_support_-b_-d_-r");
    reveal_strlit("___eapi_die_can_respect_nonfatal");
    reveal_strlit("___eapi_doconfd_respects_insopts");
    reveal_strlit("___eapi_dodoc_supports_-r");
    reveal_strlit("___eapi_doenvd_respects_insopts");
    reveal_strlit("___eapi_doheader_respects_insopts");
    reveal_strlit("___eapi_doinitd_respects_exeopts");
    reveal_strlit("___eapi_doins_and_newins_preserve_symlinks");
    reveal_strlit("___eapi_domo_respects_into");
    reveal_strlit("___eapi_econf_passes_--datarootdir");
    reveal_strlit("___eapi_econf_passes_--disable-dependency-tracking");
    reveal_strlit("___eapi_econf_passes_--disable-silent-rules");
    reveal_strlit("___eapi_econf_passes_--disable-static");
    reveal_strlit("___eapi_econf_passes_--docdir_and_--htmldir");
    reveal_strlit("___eapi_econf_passes_--with-sysroot");
    reveal_strlit("___eapi_has_DESTTREE_INSDESTTREE");
    reveal_strlit("___eapi_has_dosym_r");
    reveal_strlit("___eapi_helpers_can_die");
    reveal_strlit("___eapi_newins_supports_reading_from_standard_input");
    reveal_strlit("___eapi_unpack_is_case_sensitive");
    reveal_strlit("___eapi_unpack_supports_7z");
    reveal_strlit("___eapi_unpack_supports_absolute_paths");
    reveal_strlit("___eapi_unpack_supports_lha");
    reveal_strlit("___eapi_unpack_supports_rar");
    reveal_strlit("___eapi_unpack_supports_txz");
    reveal_strlit("___eapi_unpack_supports_xz");
    reveal_strlit("___eapi_use_enable_and_use_with_support_empty_third_argument");
    reveal_strlit("___eapi_usev_has_second_arg");
    reveal_strlit("___eapi_bash_3_2");
    reveal_strlit("___eapi_bash_4_2");
    reveal_strlit("___eapi_bash_5_0");
    reveal_strlit("___eapi_bash_5_3");
    reveal_strlit("___eapi_enables_failglob_in_global_scope");
    reveal_strlit("___eapi_has_ENV_UNSET");
    reveal_strlit("___eapi_has_strict_keepdir");
    // The names are told apart by their lengths, or by one character where
    // two lengths agree.
    assert("___eapi_default_src_test_disables_parallel_jobs"@.len() == 47);
    assert("___eapi_has_S_WORKDIR_fallback"@.len() == 30);
    assert("___eapi_has_pkg_pretend"@.len() == 23);
    assert("___eapi_has_src_configure"@.len() == 25);
    assert("___eapi_has_src_prepare"@.len() == 23);
    assert("___eapi_has_BDEPEND"@.len() == 19);
    assert("___eapi_has_BROOT"@.len() == 17);
    assert("___eapi_has_IDEPEND"@.len() == 19);
    assert("___eapi_has_PORTDIR_ECLASSDIR"@.len() == 29);
    assert("___eapi_has_RDEPEND_DEPEND_fallback"@.len() == 35);
    assert("___eapi_has_SYSROOT"@.len() == 19);
    assert("___eapi_has_accumulated_PROPERTIES"@.len() == 34);
    assert("___eapi_has_accumulated_RESTRICT"@.len() == 32);
    assert("___eapi_has_prefix_variables"@.len() == 28);
    assert("___eapi_has_assert"@.len() == 18);
    assert("___eapi_has_docompress"@.len() == 22);
    assert("___eapi_has_dohard"@.len() == 18);
    assert("___eapi_has_doheader"@.len() == 20);
    assert("___eapi_has_dohtml"@.len() == 18);
    assert("___eapi_has_dolib_libopts"@.len() == 25);
    assert("___eapi_has_domo"@.len() == 16);
    assert("___eapi_has_dosed"@.len() == 17);
    assert("___eapi_has_dostrip"@.len() == 19);
    assert("___eapi_has_eapply"@.len() == 18);
    assert("___eapi_has_eapply_user"@.len() == 23);
    assert("___eapi_has_edo"@.len() == 15);
    assert("___eapi_has_einstall"@.len() == 20);
    assert("___eapi_has_einstalldocs"@.len() == 24);
    assert("___eapi_has_get_libdir"@.len() == 22);
    assert("___eapi_has_hasq"@.len() == 16);
    assert("___eapi_has_hasv"@.len() == 16);
    assert("___eapi_has_in_iuse"@.len() == 19);
    assert("___eapi_has_nonfatal"@.len() == 20);
    assert("___eapi_has_pipestatus"@.len() == 22);
    assert("___eapi_has_useq"@.len() == 16);
    assert("___eapi_has_usex"@.len() == 16);
    assert("___eapi_has_ver_replacing"@.len() == 25);
    assert("___eapi_has_version_functions"@.len() == 29);
    assert("___eapi_best_version_and_has_version_support_--host-root"@.len() == 56);
    assert("___eapi_best_version_and_has_version_support_-b_-d_-r"@.len() == 53);
    assert("___eapi_die_can_respect_nonfatal"@.len() == 32);
    assert("___eapi_doconfd_respects_insopts"@.len() == 32);
    assert("___eapi_dodoc_supports_-r"@.len() == 25);
    assert("___eapi_doenvd_respects_insopts"@.len() == 31);
    assert("___eapi_doheader_respects_insopts"@.len() == 33);
    assert("___eapi_doinitd_respects_exeopts"@.len() == 32);
    assert("___eapi_doins_and_newins_preserve_symlinks"@.len() == 42);
    assert("___eapi_domo_respects_into"@.len() == 26);
    assert("___eapi_econf_passes_--datarootdir"@.len() == 34);
    assert("___eapi_econf_passes_--disable-dependency-tracking"@.len() == 50);
    assert("___eapi_econf_passes_--disable-silent-rules"@.len() == 43);
    assert("___eapi_econf_passes_--disable-static"@.len() == 37);
    assert("___eapi_econf_passes_--docdir_and_--htmldir"@.len() == 43);
    assert("___eapi_econf_passes_--with-sysroot"@.len() == 35);
    assert("___eapi_has_DESTTREE_INSDESTTREE"@.len() == 32);
    assert("___eapi_has_dosym_r"@.len() == 19);
    assert("___eapi_helpers_can_die"@.len() == 23);
    assert("___eapi_newins_supports_reading_from_standard_input"@.len() == 51);
    assert("___eapi_unpack_is_case_sensitive"@.len() == 32);
    assert("___eapi_unpack_supports_7z"@.len() == 26);
    assert("___eapi_unpack_supports_absolute_paths"@.len() == 38);
    assert("___eapi_unpack_supports_lha"@.len() == 27);
    assert("___eapi_unpack_supports_rar"@.len() == 27);
    assert("___eapi_unpack_supports_txz"@.len() == 27);
    assert("___eapi_unpack_supports_xz"@.len() == 26);
    assert("___eapi_use_enable_and_use_with_support_empty_third_argument"@.len() == 60);
    assert("___eapi_usev_has_second_arg"@.len() == 27);
    assert("___eapi_bash_3_2"@.len() == 16);
    assert("___eapi_bash_4_2"@.len() == 16);
    assert("___eapi_bash_5_0"@.len() == 16);
    assert("___eapi_bash_5_3"@.len() == 16);
    assert("___eapi_enables_failglob_in_global_scope"@.len() == 40);
    assert("___eapi_has_ENV_UNSET"@.len() == 21);
    assert("___eapi_has_strict_keepdir"@.len() == 26);
    assert("___eapi_has_src_prepare"@[12] != "___eapi_has_pkg_pretend"@[12]);
    assert("___eapi_has_IDEPEND"@[12] != "___eapi_has_BDEPEND"@[12]);
    assert("___eapi_has_SYSROOT"@[12] != "___eapi_has_BDEPEND"@[12]);
    assert("___eapi_has_SYSROOT"@[12] != "___eapi_has_IDEPEND"@[12]);
    assert("___eapi_has_dohard"@[12] != "___eapi_has_assert"@[12]);
    assert("___eapi_has_dohtml"@[12] != "___eapi_has_assert"@[12]);
    assert("___eapi_has_dohtml"@[15] != "___eapi_has_dohard"@[15]);
    assert("___eapi_has_dolib_libopts"@[12] != "___eapi_has_src_configure"@[12]);
    assert("___eapi_has_dosed"@[12] != "___eapi_has_BROOT"@[12]);
    assert("___eapi_has_dostrip"@[12] != "___eapi_has_BDEPEND"@[12]);
    assert("___eapi_has_dostrip"@[12] != "___eapi_has_IDEPEND"@[12]);
    assert("___eapi_has_dostrip"@[12] != "___eapi_has_SYSROOT"@[12]);
    assert("___eapi_has_eapply"@[12] != "___eapi_has_assert"@[12]);
    assert("___eapi_has_eapply"@[12] != "___eapi_has_dohard"@[12]);
    assert("___eapi_has_eapply"@[12] != "___eapi_has_dohtml"@[12]);
    assert("___eapi_has_eapply_user"@[12] != "___eapi_has_pkg_pretend"@[12]);
    assert("___eapi_has_eapply_user"@[12] != "___eapi_has_src_prepare"@[12]);
    assert("___eapi_has_einstall"@[12] != "___eapi_has_doheader"@[12]);
    assert("___eapi_has_get_libdir"@[12] != "___eapi_has_docompress"@[12]);
    assert("___eapi_has_hasq"@[12] != "___eapi_has_domo"@[12]);
    assert("___eapi_has_hasv"@[12] != "___eapi_has_domo"@[12]);
    assert("___eapi_has_hasv"@[15] != "___eapi_has_hasq"@[15]);
    assert("___eapi_has_in_iuse"@[12] != "___eapi_has_BDEPEND"@[12]);
    assert("___eapi_has_in_iuse"@[12] != "___eapi_has_IDEPEND"@[12]);
    assert("___eapi_has_in_iuse"@[12] != "___eapi_has_SYSROOT"@[12]);
    assert("___eapi_has_in_iuse"@[12] != "___eapi_has_dostrip"@[12]);
    assert("___eapi_has_nonfatal"@[12] != "___eapi_has_doheader"@[12]);
    assert("___eapi_has_nonfatal"@[12] != "___eapi_has_einstall"@[12]);
    assert("___eapi_has_pipestatus"@[12] != "___eapi_has_docompress"@[12]);
    assert("___eapi_has_pipestatus"@[12] != "___eapi_has_get_libdir"@[12]);
    assert("___eapi_has_useq"@[12] != "___eapi_has_domo"@[12]);
    assert("___eapi_has_useq"@[12] != "___eapi_has_hasq"@[12]);
    assert("___eapi_has_useq"@[12] != "___eapi_has_hasv"@[12]);
    assert("___eapi_has_usex"@[12] != "___eapi_has_domo"@[12]);
    assert("___eapi_has_usex"@[12] != "___eapi_has_hasq"@[12]);
    assert("___eapi_has_usex"@[12] != "___eapi_has_hasv"@[12]);
    assert("___eapi_has_usex"@[15] != "___eapi_has_useq"@[15]);
    assert("___eapi_has_ver_replacing"@[12] != "___eapi_has_src_configure"@[12]);
    assert("___eapi_has_ver_replacing"@[12] != "___eapi_has_dolib_libopts"@[12]);
    assert("___eapi_has_version_functions"@[12] != "___eapi_has_PORTDIR_ECLASSDIR"@[12]);
    assert("___eapi_die_can_respect_nonfatal"@[8] != "___eapi_has_accumulated_RESTRICT"@[8]);
    assert("___eapi_doconfd_respects_insopts"@[8] != "___eapi_has_accumulated_RESTRICT"@[8]);
    assert("___eapi_doconfd_respects_insopts"@[9] != "___eapi_die_can_respect_nonfatal"@[9]);
    assert("___eapi_dodoc_supports_-r"@[8] != "___eapi_has_src_configure"@[8]);
    assert("___eapi_dodoc_supports_-r"@[8] != "___eapi_has_dolib_libopts"@[8]);
    assert("___eapi_dodoc_supports_-r"@[8] != "___eapi_has_ver_replacing"@[8]);
    assert("___eapi_doinitd_respects_exeopts"@[8] != "___eapi_has_accumulated_RESTRICT"@[8]);
    assert("___eapi_doinitd_respects_exeopts"@[9] != "___eapi_die_can_respect_nonfatal"@[9]);
    assert("___eapi_doinitd_respects_exeopts"@[10] != "___eapi_doconfd_respects_insopts"@[10]);
    assert("___eapi_econf_passes_--datarootdir"@[8] != "___eapi_has_accumulated_PROPERTIES"@[8]);
    assert("___eapi_econf_passes_--docdir_and_--htmldir"@[24] != "___eapi_econf_passes_--disable-silent-rules"@[24]);
    assert("___eapi_econf_passes_--with-sysroot"@[8] != "___eapi_has_RDEPEND_DEPEND_fallback"@[8]);
    assert("___eapi_has_DESTTREE_INSDESTTREE"@[12] != "___eapi_has_accumulated_RESTRICT"@[12]);
    assert("___eapi_has_DESTTREE_INSDESTTREE"@[8] != "___eapi_die_can_respect_nonfatal"@[8]);
    assert("___eapi_has_DESTTREE_INSDESTTREE"@[8] != "___eapi_doconfd_respects_insopts"@[8]);
    assert("___eapi_has_DESTTREE_INSDESTTREE"@[8] != "___eapi_doinitd_respects_exeopts"@[8]);
    assert("___eapi_has_dosym_r"@[12] != "___eapi_has_BDEPEND"@[12]);
    assert("___eapi_has_dosym_r"@[12] != "___eapi_has_IDEPEND"@[12]);
    assert("___eapi_has_dosym_r"@[12] != "___eapi_has_SYSROOT"@[12]);
    assert("___eapi_has_dosym_r"@[15] != "___eapi_has_dostrip"@[15]);
    assert("___eapi_has_dosym_r"@[12] != "___eapi_has_in_iuse"@[12]);
    assert("___eapi_helpers_can_die"@[9] != "___eapi_has_pkg_pretend"@[9]);
    assert("___eapi_helpers_can_die"@[9] != "___eapi_has_src_prepare"@[9]);
    assert("___eapi_helpers_can_die"@[9] != "___eapi_has_eapply_user"@[9]);
    assert("___eapi_unpack_is_case_sensitive"@[8] != "___eapi_has_accumulated_RESTRICT"@[8]);
    assert("___eapi_unpack_is_case_sensitive"@[8] != "___eapi_die_can_respect_nonfatal"@[8]);
    assert("___eapi_unpack_is_case_sensitive"@[8] != "___eapi_doconfd_respects_insopts"@[8]);
    assert("___eapi_unpack_is_case_sensitive"@[8] != "___eapi_doinitd_respects_exeopts"@[8]);
    assert("___eapi_unpack_is_case_sensitive"@[8] != "___eapi_has_DESTTREE_INSDESTTREE"@[8]);
    assert("___eapi_unpack_supports_7z"@[8] != "___eapi_domo_respects_into"@[8]);
    assert("___eapi_unpack_supports_rar"@[24] != "___eapi_unpack_supports_lha"@[24]);
    assert("___eapi_unpack_supports_txz"@[24] != "___eapi_unpack_supports_lha"@[24]);
    assert("___eapi_unpack_supports_txz"@[24] != "___eapi_unpack_supports_rar"@[24]);
    assert("___eapi_unpack_supports_xz"@[8] != "___eapi_domo_respects_into"@[8]);
    assert("___eapi_unpack_supports_xz"@[24] != "___eapi_unpack_supports_7z"@[24]);
    assert("___eapi_usev_has_second_arg"@[9] != "___eapi_unpack_supports_lha"@[9]);
    assert("___eapi_usev_has_second_arg"@[9] != "___eapi_unpack_supports_rar"@[9]);
    assert("___eapi_usev_has_second_arg"@[9] != "___eapi_unpack_supports_txz"@[9]);
    assert("___eapi_bash_3_2"@[8] != "___eapi_has_domo"@[8]);
    assert("___eapi_bash_3_2"@[8] != "___eapi_has_hasq"@[8]);
    assert("___eapi_bash_3_2"@[8] != "___eapi_has_hasv"@[8]);
    assert("___eapi_bash_3_2"@[8] != "___eapi_has_useq"@[8]);
    assert("___eapi_bash_3_2"@[8] != "___eapi_has_usex"@[8]);
    assert("___eapi_bash_4_2"@[8] != "___eapi_has_domo"@[8]);
    assert("___eapi_bash_4_2"@[8] != "___eapi_has_hasq"@[8]);
    assert("___eapi_bash_4_2"@[8] != "___eapi_has_hasv"@[8]);
    assert("___eapi_bash_4_2"@[8] != "___eapi_has_useq"@[8]);
    assert("___eapi_bash_4_2"@[8] != "___eapi_has_usex"@[8]);
    assert("___eapi_bash_4_2"@[13] != "___eapi_bash_3_2"@[13]);
    assert("___eapi_bash_5_0"@[8] != "___eapi_has_domo"@[8]);
    assert("___eapi_bash_5_0"@[8] != "___eapi_has_hasq"@[8]);
    assert("___eapi_bash_5_0"@[8] != "___eapi_has_hasv"@[8]);
    assert("___eapi_bash_5_0"@[8] != "___eapi_has_useq"@[8]);
    assert("___eapi_bash_5_0"@[8] != "___eapi_has_usex"@[8]);
    assert("___eapi_bash_5_0"@[13] != "___eapi_bash_3_2"@[13]);
    assert("___eapi_bash_5_0"@[13] != "___eapi_bash_4_2"@[13]);
    assert("___eapi_bash_5_3"@[8] != "___eapi_has_domo"@[8]);
    assert("___eapi_bash_5_3"@[8] != "___eapi_has_hasq"@[8]);
    assert("___eapi_bash_5_3"@[8] != "___eapi_has_hasv"@[8]);
    assert("___eapi_bash_5_3"@[8] != "___eapi_has_useq"@[8]);
    assert("___eapi_bash_5_3"@[8] != "___eapi_has_usex"@[8]);
    assert("___eapi_bash_5_3"@[13] != "___eapi_bash_3_2"@[13]);
    assert("___eapi_bash_5_3"@[13] != "___eapi_bash_4_2"@[13]);
    assert("___eapi_bash_5_3"@[15] != "___eapi_bash_5_0"@[15]);
    assert("___eapi_has_strict_keepdir"@[8] != "___eapi_domo_respects_into"@[8]);
    assert("___eapi_has_strict_keepdir"@[8] != "___eapi_unpack_supports_7z"@[8]);
    assert("___eapi_has_strict_keepdir"@[8] != "___eapi_unpack_supports_xz"@[8]);
}

/// Every EAPI feature only ever appears or disappears once: the EAPIs that
/// have it form one contiguous range.
pub proof fn lemma_eapi_predicate_contiguous(name: Seq<char>, a: u32, b: u32, c: u32)
    requires
        a <= b <= c,
        eapi_predicate_spec(name, a),
        eapi_predicate_spec(name, c),
    ensures
        eapi_predicate_spec(name, b),
{
}

// ───────────────────────────── phases ────────────────────────────────────────

/// A portage phase name and the `EBUILD_PHASE` value and phase function it
/// selects; any other name is taken as a raw function name.
pub open spec fn phase_table(phase: Seq<char>) -> Option<Seq<char>> {
    if phase == "pretend"@ { Some("pkg_pretend"@) }
    else if phase == "setup"@ { Some("pkg_setup"@) }
    else if phase == "unpack"@ { Some("src_unpack"@) }
    else if phase == "prepare"@ { Some("src_prepare"@) }
    else if phase == "configure"@ { Some("src_configure"@) }
    else if phase == "compile"@ { Some("src_compile"@) }
    else if phase == "test"@ { Some("src_test"@) }
    else if phase == "install"@ { Some("src_install"@) }
    else if phase == "preinst"@ { Some("pkg_preinst"@) }
    else if phase == "postinst"@ { Some("pkg_postinst"@) }
    else if phase == "prerm"@ { Some("pkg_prerm"@) }
    else if phase == "postrm"@ { Some("pkg_postrm"@) }
    else if phase == "nofetch"@ { Some("pkg_nofetch"@) }
    else if phase == "info"@ { Some("pkg_info"@) }
    else if phase == "config"@ { Some("pkg_config"@) }
    else { None }
}

/// `(EBUILD_PHASE, phase function)` for a phase name.
pub open spec fn phase_to_func_spec(phase: Seq<char>) -> (Seq<char>, Seq<char>) {
    match phase_table(phase) {
        Some(f) => (phase, f),
        None => (phase, phase),
    }
}

/// The `EBUILD_PHASE` value and the phase function of a phase name.
pub fn phase_to_func(phase: &str) -> (r: (String, String))
    ensures
        (r.0@, r.1@) == phase_to_func_spec(phase@),
{
    let p = chars_of(phase);
    let p = p.as_slice();
    let f: &str = if eq_str(p, "pretend") { "pkg_pretend" }
    else if eq_str(p, "setup") { "pkg_setup" }
    else if eq_str(p, "unpack") { "src_unpack" }
    else if eq_str(p, "prepare") { "src_prepare" }
    else if eq_str(p, "configure") { "src_configure" }
    else if eq_str(p, "compile") { "src_compile" }
    else if eq_str(p, "test") { "src_test" }
    else if eq_str(p, "install") { "src_install" }
    else if eq_str(p, "preinst") { "pkg_preinst" }
    else if eq_str(p, "postinst") { "pkg_postinst" }
    else if eq_str(p, "prerm") { "pkg_prerm" }
    else if eq_str(p, "postrm") { "pkg_postrm" }
    else if eq_str(p, "nofetch") { "pkg_nofetch" }
    else if eq_str(p, "info") { "pkg_info" }
    else if eq_str(p, "config") { "pkg_config" }
    else { phase };
    (phase.to_owned(), f.to_owned())
}

/// The function that implements the default of `phase_func` in an EAPI.
pub open spec fn phase_default_spec(eapi: u32, phase_func: Seq<char>) -> Option<Seq<char>> {
    if phase_func == "pkg_nofetch"@ { Some("__eapi0_pkg_nofetch"@) }
    else if phase_func == "src_unpack"@ { Some("__eapi0_src_unpack"@) }
    else if phase_func == "src_test"@ { Some("__eapi0_src_test"@) }
    else if phase_func == "src_configure"@ { Some("__eapi2_src_configure"@) }
    else if phase_func == "src_compile"@ { Some("__eapi2_src_compile"@) }
    else if phase_func == "src_prepare"@ {
        if eapi >= 8 { Some("__eapi8_src_prepare"@) }
        else if eapi >= 6 { Some("__eapi6_src_prepare"@) }
        else { Some("__eapi2_src_prepare"@) }
    } else if phase_func == "src_install"@ {
        if eapi >= 6 { Some("__eapi6_src_install"@) }
        else if eapi >= 4 { Some("__eapi4_src_install"@) }
        else { None }
    } else { None }
}

/// The name of the function that implements the default behaviour of
/// `phase_func` in the given EAPI.
pub fn resolve_phase_default(eapi: u32, phase_func: &str) -> (r: Option<&'static str>)
    ensures
        match phase_default_spec(eapi, phase_func@) {
            Some(f) => r is Some && r->0@ == f,
            None => r is None,
        },
{
    let p = chars_of(phase_func);
    let p = p.as_slice();
    if eq_str(p, "pkg_nofetch") { Some("__eapi0_pkg_nofetch") }
    else if eq_str(p, "src_unpack") { Some("__eapi0_src_unpack") }
    else if eq_str(p, "src_test") { Some("__eapi0_src_test") }
    else if eq_str(p, "src_configure") { Some("__eapi2_src_configure") }
    else if eq_str(p, "src_compile") { Some("__eapi2_src_compile") }
    else if eq_str(p, "src_prepare") {
        if eapi >= 8 { Some("__eapi8_src_prepare") }
        else if eapi >= 6 { Some("__eapi6_src_prepare") }
        else { Some("__eapi2_src_prepare") }
    } else if eq_str(p, "src_install") {
        if eapi >= 6 { Some("__eapi6_src_install") }
        else if eapi >= 4 { Some("__eapi4_src_install") }
        else { None }
    } else { None }
}

// ───────────────────────────── configure flags ───────────────────────────────

/// A character that continues an option name (`[A-Za-z0-9+_.-]`).
pub open spec fn is_flag_char(c: char) -> bool {
    ('a' <= c && c <= 'z') || ('A' <= c && c <= 'Z') || ('0' <= c && c <= '9') || c == '+' || c
        == '_' || c == '.' || c == '-'
}

/// Whether `flag` occurs in `text` as a whole option: followed by the end of
/// the text or by a character that does not continue an option name.
pub open spec fn contains_flag_spec(text: Seq<char>, flag: Seq<char>) -> bool {
    exists|i: int|
        #[trigger] occurs_at(text, flag, i) && (i + flag.len() == text.len() || !is_flag_char(
            text[i + flag.len()],
        ))
}

/// Whether `pat` occurs anywhere in `text` (`str::contains`).
pub open spec fn contains_spec(text: Seq<char>, pat: Seq<char>) -> bool {
    exists|i: int| occurs_at(text, pat, i)
}

pub fn flag_char(c: char) -> (r: bool)
    ensures
        r == is_flag_char(c),
{
    ('a' <= c && c <= 'z') || ('A' <= c && c <= 'Z') || ('0' <= c && c <= '9') || c == '+' || c
        == '_' || c == '.' || c == '-'
}

/// Whether `pat` occurs at `i` in `text`.
fn occurs(text: &[char], pat: &[char], i: usize) -> (r: bool)
    ensures
        r == occurs_at(text@, pat@, i as int),
{
    let n = text.len();
    let m = pat.len();
    if i > n || m > n - i {
        return false;
    }
    let mut k: usize = 0;
    while k < m
        invariant
            n == text@.len(),
            m == pat@.len(),
            i + m <= n,
            k <= m,
            forall|q: int| 0 <= q < k ==> text@[i + q] == pat@[q],
        decreases m - k,
    {
        if text[i + k] != pat[k] {
            assert(text@.subrange(i as int, i + pat@.len())[k as int] != pat@[k as int]);
            return false;
        }
        k += 1;
    }
    assert(text@.subrange(i as int, i + pat@.len()) =~= pat@);
    true
}

/// Whether `f` occurs at `i` in `t` as a whole option.
fn flag_at(t: &[char], f: &[char], i: usize) -> (r: bool)
    ensures
        r == (occurs_at(t@, f@, i as int) && (i + f@.len() == t@.len() || !is_flag_char(
            t@[i + f@.len()],
        ))),
{
    let n = t.len();
    if occurs(t, f, i) {
        let end = i + f.len();
        end == n || !flag_char(t[end])
    } else {
        false
    }
}

/// Whether `flag` appears in `text` followed by a non-identifier character
/// (or the end), so that `--disable-dependency-tracking` does not match
/// `--disable-dependency-tracking-fast`.
pub fn contains_flag(text: &str, flag: &str) -> (r: bool)
    ensures
        r == contains_flag_spec(text@, flag@),
{
    let t = chars_of(text);
    let f = chars_of(flag);
    let n = t.len();
    let mut i: usize = 0;
    while i < n
        invariant
            t@ == text@,
            f@ == flag@,
            n == t@.len(),
            i <= n,
            forall|j: int|
                0 <= j < i ==> !(#[trigger] occurs_at(t@, f@, j) && (j + f@.len() == t@.len()
                    || !is_flag_char(t@[j + f@.len()]))),
        decreases n - i,
    {
        if flag_at(t.as_slice(), f.as_slice(), i) {
            return true;
        }
        i += 1;
    }
    if flag_at(t.as_slice(), f.as_slice(), n) {
        return true;
    }
    assert forall|j: int|
        !(#[trigger] occurs_at(t@, f@, j) && (j + f@.len() == t@.len() || !is_flag_char(
            t@[j + f@.len()],
        ))) by {
        if 0 <= j < n {
        }
    }
    false
}

/// Whether `pat` occurs in `text`.
pub fn contains(text: &str, pat: &str) -> (r: bool)
    ensures
        r == contains_spec(text@, pat@),
{
    let t = chars_of(text);
    let p = chars_of(pat);
    let n = t.len();
    let mut i: usize = 0;
    while i < n
        invariant
            t@ == text@,
            p@ == pat@,
            n == t@.len(),
            i <= n,
            forall|j: int| 0 <= j < i ==> !occurs_at(t@, p@, j),
        decreases n - i,
    {
        if occurs(t.as_slice(), p.as_slice(), i) {
            return true;
        }
        i += 1;
    }
    if occurs(t.as_slice(), p.as_slice(), n) {
        return true;
    }
    assert forall|j: int| !occurs_at(t@, p@, j) by {
        if 0 <= j < n {
        }
    }
    false
}

// ───────────────────────────── small commands ────────────────────────────────

/// `a b c` joined by single spaces.
pub open spec fn join_spaces(ws: Seq<Seq<char>>) -> Seq<char>
    decreases ws.len(),
{
    if ws.len() == 0 {
        seq![]
    } else if ws.len() == 1 {
        ws[0]
    } else {
        join_spaces(ws.drop_last()) + seq![' '] + ws.last()
    }
}

/// The strings joined by single spaces (`[..].join(" ")`).
pub fn join_with_spaces(v: &Vec<String>) -> (r: String)
    ensures
        r@ == join_spaces(strings_view(v@)),
{
    let mut s = String::new();
    let mut i: usize = 0;
    while i < v.len()
        invariant
            i <= v@.len(),
            s@ == join_spaces(strings_view(v@).take(i as int)),
        decreases v@.len() - i,
    {
        let ghost pre = strings_view(v@).take(i as int);
        assert(strings_view(v@).take(i + 1).drop_last() =~= pre);
        assert(strings_view(v@).take(i + 1).last() == v@[i as int]@);
        if i > 0 {
            let sp = vec![' '];
            push_chars(&mut s, sp.as_slice());
        }
        push_str(&mut s, v[i].as_str());
        proof {
            if i == 0 {
                assert(s@ =~= join_spaces(strings_view(v@).take(1)));
            } else {
                assert(s@ =~= join_spaces(pre) + seq![' '] + v@[i as int]@);
            }
        }
        i += 1;
    }
    assert(strings_view(v@).take(i as int) =~= strings_view(v@));
    s
}

/// `has needle haystack...`: whether the needle is one of the words.
pub fn has(needle: &str, haystack: &Vec<String>) -> (r: bool)
    ensures
        r == strings_view(haystack@).contains(needle@),
{
    let n = chars_of(needle);
    let mut i: usize = 0;
    while i < haystack.len()
        invariant
            i <= haystack@.len(),
            n@ == needle@,
            forall|k: int| 0 <= k < i ==> haystack@[k]@ != needle@,
        decreases haystack@.len() - i,
    {
        if eq_str(n.as_slice(), haystack[i].as_str()) {
            assert(strings_view(haystack@)[i as int] == needle@);
            return true;
        }
        i += 1;
    }
    assert(!strings_view(haystack@).contains(needle@)) by {
        if strings_view(haystack@).contains(needle@) {
            let k = choose|k: int| 0 <= k < haystack@.len() && strings_view(haystack@)[k] == needle@;
            assert(haystack@[k]@ == needle@);
        }
    }
    false
}

/// Whether a USE flag is enabled: a whole word of `$USE`.
pub open spec fn use_enabled(use_var: Option<Seq<char>>, flag: Seq<char>) -> bool {
    match use_var {
        Some(u) => words(u, true).contains(flag),
        None => false,
    }
}

/// Whether `flag` is a whole word of the `USE` variable.
pub fn use_flag_enabled(use_var: Option<&str>, flag: &str) -> (r: bool)
    ensures
        r == use_enabled(crate::util::opt_view(use_var), flag@),
{
    match use_var {
        None => false,
        Some(u) => {
            let uv = chars_of(u);
            let ws = split_words(uv.as_slice(), true);
            let f = chars_of(flag);
            let mut i: usize = 0;
            while i < ws.len()
                invariant
                    crate::util::opt_view(use_var) == Some(u@),
                    i <= ws@.len(),
                    f@ == flag@,
                    ws@.len() == words(u@, true).len(),
                    forall|k: int| 0 <= k < ws@.len() ==> #[trigger] ws@[k]@ == words(u@, true)[k],
                    forall|k: int| 0 <= k < i ==> words(u@, true)[k] != flag@,
                decreases ws@.len() - i,
            {
                if crate::text::chars_eq(ws[i].as_slice(), f.as_slice()) {
                    assert(words(u@, true)[i as int] == flag@);
                    assert(words(u@, true).contains(flag@));
                    return true;
                }
                i += 1;
            }
            assert(!words(u@, true).contains(flag@)) by {
                if words(u@, true).contains(flag@) {
                    let k = choose|k: int| 0 <= k < words(u@, true).len() && words(u@, true)[k] == flag@;
                    assert(ws@[k]@ == words(u@, true)[k]);
                }
            }
            false
        },
    }
}

/// What `usex flag [true [false [true-suffix [false-suffix]]]]` prints (without
/// the newline) and whether it succeeds.
pub open spec fn usex_spec(
    enabled: bool,
    true_str: Option<Seq<char>>,
    false_str: Option<Seq<char>>,
    true_suffix: Option<Seq<char>>,
    false_suffix: Option<Seq<char>>,
) -> Seq<char> {
    if enabled {
        (match true_str { Some(s) => s, None => "yes"@ }) + (match true_suffix { Some(s) => s, None => seq![] })
    } else {
        (match false_str { Some(s) => s, None => "no"@ }) + (match false_suffix { Some(s) => s, None => seq![] })
    }
}

/// The line that `usex` prints.
pub fn usex_output(
    enabled: bool,
    true_str: Option<&str>,
    false_str: Option<&str>,
    true_suffix: Option<&str>,
    false_suffix: Option<&str>,
) -> (r: String)
    ensures
        r@ == usex_spec(
            enabled,
            crate::util::opt_view(true_str),
            crate::util::opt_view(false_str),
            crate::util::opt_view(true_suffix),
            crate::util::opt_view(false_suffix),
        ),
{
    let (s, sfx) = if enabled {
        (match true_str { Some(s) => s, None => "yes" }, match true_suffix { Some(s) => s, None => "" })
    } else {
        (match false_str { Some(s) => s, None => "no" }, match false_suffix { Some(s) => s, None => "" })
    };
    proof {
        reveal_strlit("");
    }
    crate::text::concat2(s, sfx)
}

/// What `use_enable` (`kind` = `enable`/`disable`) or `use_with` (`with`/
/// `without`) prints: `--{on}-{feature}[={value}]` or `--{off}-{feature}`.
pub open spec fn use_switch_spec(
    enabled: bool,
    on: Seq<char>,
    off: Seq<char>,
    flag: Seq<char>,
    feature: Option<Seq<char>>,
    value: Option<Seq<char>>,
) -> Seq<char> {
    let f = match feature {
        Some(x) => x,
        None => flag,
    };
    if enabled {
        match value {
            Some(v) => "--"@ + on + "-"@ + f + "="@ + v,
            None => "--"@ + on + "-"@ + f,
        }
    } else {
        "--"@ + off + "-"@ + f
    }
}

/// The line that `use_enable` / `use_with` print.
pub fn use_switch_output(
    enabled: bool,
    on: &str,
    off: &str,
    flag: &str,
    feature: Option<&str>,
    value: Option<&str>,
) -> (r: String)
    ensures
        r@ == use_switch_spec(
            enabled,
            on@,
            off@,
            flag@,
            crate::util::opt_view(feature),
            crate::util::opt_view(value),
        ),
{
    let f = match feature {
        Some(x) => x,
        None => flag,
    };
    let mut s = String::new();
    push_str(&mut s, "--");
    if enabled {
        push_str(&mut s, on);
        push_str(&mut s, "-");
        push_str(&mut s, f);
        match value {
            Some(v) => {
                push_str(&mut s, "=");
                push_str(&mut s, v);
            },
            None => {},
        }
    } else {
        push_str(&mut s, off);
        push_str(&mut s, "-");
        push_str(&mut s, f);
    }
    proof {
        if enabled {
            if value is Some {
                assert(s@ =~= "--"@ + on@ + "-"@ + f@ + "="@ + value->0@);
            } else {
                assert(s@ =~= "--"@ + on@ + "-"@ + f@);
            }
        } else {
            assert(s@ =~= "--"@ + off@ + "-"@ + f@);
        }
    }
    s
}

/// A flag with all leading `+` and `-` removed (`trim_start_matches`).
pub open spec fn strip_signs(s: Seq<char>) -> Seq<char>
    decreases s.len(),
{
    if s.len() > 0 && (s[0] == '+' || s[0] == '-') {
        strip_signs(s.drop_first())
    } else {
        s
    }
}

/// Whether `flag` is in `IUSE` (each entry without its `+`/`-` default marks).
pub open spec fn in_iuse_spec(iuse: Seq<char>, flag: Seq<char>) -> bool {
    exists|k: int| 0 <= k < words(iuse, true).len() && strip_signs(#[trigger] words(iuse, true)[k]) == flag
}

fn strip_signs_exec(s: &[char]) -> (r: Vec<char>)
    ensures
        r@ == strip_signs(s@),
{
    let mut i: usize = 0;
    assert(s@.skip(0) =~= s@);
    while i < s.len() && (s[i] == '+' || s[i] == '-')
        invariant
            i <= s@.len(),
            strip_signs(s@) == strip_signs(s@.skip(i as int)),
        decreases s@.len() - i,
    {
        assert(s@.skip(i as int).drop_first() =~= s@.skip(i + 1));
        i += 1;
    }
    assert(s@.subrange(i as int, s@.len() as int) =~= s@.skip(i as int));
    crate::text::slice_range(s, i, s.len())
}

/// `in_iuse flag`: whether the flag appears in `IUSE`.
pub fn in_iuse(iuse: &str, flag: &str) -> (r: bool)
    ensures
        r == in_iuse_spec(iuse@, flag@),
{
    let iv = chars_of(iuse);
    let ws = split_words(iv.as_slice(), true);
    let f = chars_of(flag);
    let mut i: usize = 0;
    while i < ws.len()
        invariant
            i <= ws@.len(),
            f@ == flag@,
            ws@.len() == words(iuse@, true).len(),
            forall|k: int| 0 <= k < ws@.len() ==> #[trigger] ws@[k]@ == words(iuse@, true)[k],
            forall|k: int| 0 <= k < i ==> strip_signs(#[trigger] words(iuse@, true)[k]) != flag@,
        decreases ws@.len() - i,
    {
        let st = strip_signs_exec(ws[i].as_slice());
        if crate::text::chars_eq(st.as_slice(), f.as_slice()) {
            assert(strip_signs(words(iuse@, true)[i as int]) == flag@);
            return true;
        }
        i += 1;
    }
    false
}

/// The message that `die` prints: `die: ` and the arguments joined by spaces.
pub fn die_message(args: &Vec<String>) -> (r: String)
    ensures
        r@ == "die: "@ + join_spaces(strings_view(args@)),
{
    let m = join_with_spaces(args);
    crate::text::concat2("die: ", m.as_str())
}

/// The line that `einfo`, `ewarn`, ... print: ` * ` and the message.
pub fn echo_message(args: &Vec<String>) -> (r: String)
    ensures
        r@ == " * "@ + join_spaces(strings_view(args@)),
{
    let m = join_with_spaces(args);
    crate::text::concat2(" * ", m.as_str())
}

/// The line that `ebegin` prints: ` * `, the message and ` ...`.
pub fn ebegin_message(args: &Vec<String>) -> (r: String)
    ensures
        r@ == " * "@ + join_spaces(strings_view(args@)) + " ..."@,
{
    let m = join_with_spaces(args);
    let mut s = crate::text::concat2(" * ", m.as_str());
    push_str(&mut s, " ...");
    s
}

/// The line that `eend` prints and the status it returns: ` [ ok ]` for `0`,
/// ` [ !! ] message` otherwise.
pub fn eend_message(code: Option<u8>, args: &Vec<String>) -> (r: (String, u8))
    ensures
        r.1 == (match code { Some(c) => c, None => 0 }),
        r.1 == 0 ==> r.0@ == " [ ok ]"@,
        r.1 != 0 ==> r.0@ == " [ !! ] "@ + join_spaces(strings_view(args@)),
{
    let c = match code {
        Some(c) => c,
        None => 0,
    };
    if c == 0 {
        (" [ ok ]".to_owned(), c)
    } else {
        let m = join_with_spaces(args);
        (crate::text::concat2(" [ !! ] ", m.as_str()), c)
    }
}


// ───────────────────────────── EXPORT_FUNCTIONS ──────────────────────────────

/// The message `EXPORT_FUNCTIONS` dies with outside an eclass.
pub open spec fn export_outside_eclass() -> Seq<char> {
    "die: EXPORT_FUNCTIONS called outside eclass scope"@
}

/// The wrapper that `EXPORT_FUNCTIONS` defines for one phase:
/// `phase() { ECLASS_phase "$@"; }`.
pub open spec fn export_line(eclass: Seq<char>, phase: Seq<char>) -> Seq<char> {
    phase + "() { "@ + eclass + "_"@ + phase + " \"$@\"; }\n"@
}

/// The wrappers for all phases, one per line, in order.
pub open spec fn export_script(eclass: Seq<char>, phases: Seq<Seq<char>>) -> Seq<char>
    decreases phases.len(),
{
    if phases.len() == 0 {
        seq![]
    } else {
        export_script(eclass, phases.drop_last()) + export_line(eclass, phases.last())
    }
}

/// `EXPORT_FUNCTIONS phase...`: the script that defines a wrapper calling
/// `${ECLASS}_${phase}` for each phase, or the die message when `ECLASS` is
/// unset or empty.
pub fn export_functions_script(eclass: Option<&str>, phases: &Vec<String>) -> (r: Result<
    String,
    String,
>)
    ensures
        match crate::util::opt_view(eclass) {
            Some(e) if e.len() > 0 => r matches Ok(sc) && sc@ == export_script(e, strings_view(phases@)),
            _ => r matches Err(m) && m@ == export_outside_eclass(),
        },
{
    let e = match eclass {
        Some(e) if !e.is_empty() => e,
        _ => {
            return Err("die: EXPORT_FUNCTIONS called outside eclass scope".to_owned());
        },
    };
    let mut sc = String::new();
    let mut i: usize = 0;
    while i < phases.len()
        invariant
            i <= phases@.len(),
            sc@ == export_script(e@, strings_view(phases@).take(i as int)),
        decreases phases@.len() - i,
    {
        let ph = phases[i].as_str();
        push_str(&mut sc, ph);
        push_str(&mut sc, "() { ");
        push_str(&mut sc, e);
        push_str(&mut sc, "_");
        push_str(&mut sc, ph);
        push_str(&mut sc, " \"$@\"; }\n");
        proof {
            let pre = strings_view(phases@).take(i as int);
            let nxt = strings_view(phases@).take(i + 1);
            assert(nxt.drop_last() =~= pre);
            assert(nxt.last() == phases@[i as int]@);
            assert(sc@ =~= export_script(e@, pre) + export_line(e@, phases@[i as int]@));
        }
        i += 1;
    }
    assert(strings_view(phases@).take(i as int) =~= strings_view(phases@));
    Ok(sc)
}

// ───────────────────────────── __ebuild_phase_funcs ─────────────────────────

/// The phase functions that EAPI 0 and 1 give a direct default.
pub open spec fn eapi0_direct_phase(phase: Seq<char>) -> bool {
    phase == "pkg_nofetch"@ || phase == "src_unpack"@ || phase == "src_test"@
}

/// The script `__ebuild_phase_funcs eapi phase` runs: in EAPI 0 and 1 it
/// defines a missing phase function directly; from EAPI 2 on it defines
/// `default`, `default_phase` and, when the ebuild has no such function,
/// `phase` itself calling `default`.
pub open spec fn phase_funcs_spec(eapi: u32, phase: Seq<char>, phase_defined: bool) -> Seq<char> {
    if eapi <= 1 {
        (if eapi0_direct_phase(phase) {
            "declare -F "@ + phase + " >/dev/null || "@ + phase + "() { __eapi0_"@ + phase
                + "; }\n"@
        } else {
            seq![]
        }) + (if phase == "src_compile"@ {
            "declare -F src_compile >/dev/null || src_compile() { "@ + (if eapi == 0 {
                "__eapi0_src_compile"@
            } else {
                "__eapi1_src_compile"@
            }) + "; }\n"@
        } else {
            seq![]
        })
    } else {
        "default() { default_"@ + phase + "; }\n"@ + (match phase_default_spec(eapi, phase) {
            Some(f) => "default_"@ + phase + "() { "@ + f + "; }\n"@,
            None => "default_"@ + phase + "() { die \"default_"@ + phase
                + " has no implementation in EAPI "@ + crate::text::decimal(eapi as nat)
                + "\"; }\n"@,
        }) + (if phase_defined {
            seq![]
        } else {
            phase + "() { default; }\n"@
        })
    }
}

/// `__ebuild_phase_funcs eapi phase`: the script that wires up the default
/// implementation of a phase; `phase_defined` tells whether the ebuild
/// defined the phase function itself.
pub fn phase_funcs_script(eapi: u32, phase: &str, phase_defined: bool) -> (r: String)
    ensures
        r@ == phase_funcs_spec(eapi, phase@, phase_defined),
{
    let p = chars_of(phase);
    let mut sc = String::new();
    if eapi <= 1 {
        let direct = eq_str(p.as_slice(), "pkg_nofetch") || eq_str(p.as_slice(), "src_unpack")
            || eq_str(p.as_slice(), "src_test");
        if direct {
            push_str(&mut sc, "declare -F ");
            push_str(&mut sc, phase);
            push_str(&mut sc, " >/dev/null || ");
            push_str(&mut sc, phase);
            push_str(&mut sc, "() { __eapi0_");
            push_str(&mut sc, phase);
            push_str(&mut sc, "; }\n");
        }
        let ghost first = sc@;
        if eq_str(p.as_slice(), "src_compile") {
            let impl_fn = if eapi == 0 {
                "__eapi0_src_compile"
            } else {
                "__eapi1_src_compile"
            };
            push_str(&mut sc, "declare -F src_compile >/dev/null || src_compile() { ");
            push_str(&mut sc, impl_fn);
            push_str(&mut sc, "; }\n");
        }
        proof {
            reveal_strlit("");
            assert(first =~= (if eapi0_direct_phase(phase@) {
                "declare -F "@ + phase@ + " >/dev/null || "@ + phase@ + "() { __eapi0_"@ + phase@
                    + "; }\n"@
            } else {
                seq![]
            }));
            assert(sc@ =~= phase_funcs_spec(eapi, phase@, phase_defined));
        }
    } else {
        push_str(&mut sc, "default() { default_");
        push_str(&mut sc, phase);
        push_str(&mut sc, "; }\n");
        let ghost first = sc@;
        match resolve_phase_default(eapi, phase) {
            Some(f) => {
                push_str(&mut sc, "default_");
                push_str(&mut sc, phase);
                push_str(&mut sc, "() { ");
                push_str(&mut sc, f);
                push_str(&mut sc, "; }\n");
            },
            None => {
                push_str(&mut sc, "default_");
                push_str(&mut sc, phase);
                push_str(&mut sc, "() { die \"default_");
                push_str(&mut sc, phase);
                push_str(&mut sc, " has no implementation in EAPI ");
                let mut digits: Vec<char> = Vec::new();
                crate::text::push_decimal(&mut digits, eapi as u64);
                push_chars(&mut sc, digits.as_slice());
                push_str(&mut sc, "\"; }\n");
            },
        }
        let ghost second = sc@;
        if !phase_defined {
            push_str(&mut sc, phase);
            push_str(&mut sc, "() { default; }\n");
        }
        proof {
            assert(second.subrange(0, first.len() as int) =~= first);
            assert(sc@ =~= phase_funcs_spec(eapi, phase@, phase_defined));
        }
    }
    sc
}

// ───────────────────────────── emake ─────────────────────────────────────────

/// The words of an optional variable (`split_whitespace`), none when unset.
pub open spec fn opt_words(v: Option<Seq<char>>) -> Seq<Seq<char>> {
    match v {
        Some(s) => words(s, true),
        None => seq![],
    }
}

/// `emake args...`: the program (`${MAKE:-make}`, `make` only when `MAKE`
/// is unset) and its arguments `${MAKEOPTS} ${EXTRA_EMAKE} args...`.
pub open spec fn emake_spec(
    make: Option<Seq<char>>,
    makeopts: Option<Seq<char>>,
    extra: Option<Seq<char>>,
    args: Seq<Seq<char>>,
) -> (Seq<char>, Seq<Seq<char>>) {
    (
        match make {
            Some(m) => m,
            None => "make"@,
        },
        opt_words(makeopts) + opt_words(extra) + args,
    )
}

/// The words of an optional variable as strings.
fn opt_word_strings(v: Option<&str>) -> (r: Vec<String>)
    ensures
        strings_view(r@) == opt_words(crate::util::opt_view(v)),
{
    let mut r: Vec<String> = Vec::new();
    match v {
        None => {
            assert(strings_view(r@) =~= opt_words(crate::util::opt_view(v)));
        },
        Some(s) => {
            let c = chars_of(s);
            let ws = split_words(c.as_slice(), true);
            let mut i: usize = 0;
            while i < ws.len()
                invariant
                    crate::util::opt_view(v) == Some(s@),
                    c@ == s@,
                    i <= ws@.len(),
                    ws@.len() == words(s@, true).len(),
                    forall|k: int| 0 <= k < ws@.len() ==> #[trigger] ws@[k]@ == words(s@, true)[k],
                    strings_view(r@) == words(s@, true).take(i as int),
                decreases ws@.len() - i,
            {
                let w = string_of(ws[i].as_slice());
                let ghost old_r = r@;
                assert(ws@[i as int]@ == words(s@, true)[i as int]);
                r.push(w);
                proof {
                    assert(strings_view(r@) =~= strings_view(old_r).push(words(s@, true)[i as int]));
                    assert(words(s@, true).take(i + 1) =~= words(s@, true).take(i as int).push(
                        words(s@, true)[i as int],
                    ));
                }
                i += 1;
            }
            assert(words(s@, true).take(i as int) =~= words(s@, true));
        },
    }
    r
}

/// Append strings to a vector of strings.
fn extend_strings(v: &mut Vec<String>, more: &Vec<String>)
    ensures
        strings_view(final(v)@) == strings_view(old(v)@) + strings_view(more@),
{
    let mut i: usize = 0;
    while i < more.len()
        invariant
            i <= more@.len(),
            strings_view(v@) == strings_view(old(v)@) + strings_view(more@).take(i as int),
        decreases more@.len() - i,
    {
        let s = string_of(chars_of(more[i].as_str()).as_slice());
        let ghost pre = v@;
        assert(s@ == strings_view(more@)[i as int]);
        v.push(s);
        proof {
            assert(strings_view(v@) =~= strings_view(pre).push(s@));
            assert(strings_view(more@).take(i + 1) =~= strings_view(more@).take(i as int).push(
                strings_view(more@)[i as int],
            ));
            assert(strings_view(v@) =~= strings_view(old(v)@) + strings_view(more@).take(i + 1));
        }
        i += 1;
    }
    assert(strings_view(more@).take(i as int) =~= strings_view(more@));
}

/// `emake args...`: the program to run and its arguments.
pub fn emake_command(
    make: Option<&str>,
    makeopts: Option<&str>,
    extra: Option<&str>,
    args: &Vec<String>,
) -> (r: (String, Vec<String>))
    ensures
        (r.0@, strings_view(r.1@)) == emake_spec(
            crate::util::opt_view(make),
            crate::util::opt_view(makeopts),
            crate::util::opt_view(extra),
            strings_view(args@),
        ),
{
    let prog = match make {
        Some(m) => m.to_owned(),
        None => "make".to_owned(),
    };
    let mut out = opt_word_strings(makeopts);
    let ex = opt_word_strings(extra);
    extend_strings(&mut out, &ex);
    extend_strings(&mut out, args);
    (prog, out)
}

// ───────────────────────────── usev / hasv ──────────────────────────────────

/// What `usev flag [value]` prints: the value (or the flag) when the flag is
/// enabled, nothing otherwise.
pub fn usev_output(enabled: bool, flag: &str, true_val: Option<&str>) -> (r: Option<String>)
    ensures
        enabled ==> (r matches Some(o) && o@ == (match crate::util::opt_view(true_val) {
            Some(v) => v,
            None => flag@,
        })),
        !enabled ==> r is None,
{
    if enabled {
        match true_val {
            Some(v) => Some(v.to_owned()),
            None => Some(flag.to_owned()),
        }
    } else {
        None
    }
}


// ───────────────────────────── econf ─────────────────────────────────────────

/// What `econf` reads from the environment, each unset variable read as empty.
pub struct EconfEnv {
    pub eapi: u32,
    pub eprefix: String,
    pub pf: String,
    pub chost: String,
    pub cbuild: String,
    pub ctarget: String,
    pub esysroot: String,
    pub extra_econf: String,
}

/// `[s]` when `c` holds, `[]` otherwise.
pub open spec fn opt_arg(c: bool, s: Seq<char>) -> Seq<Seq<char>> {
    if c {
        seq![s]
    } else {
        seq![]
    }
}

/// `${ESYSROOT:-/}`.
pub open spec fn sysroot_or_root(v: Seq<char>) -> Seq<char> {
    if v.len() == 0 {
        "/"@
    } else {
        v
    }
}

/// The directories `econf` always passes, under `${EPREFIX}`.
pub open spec fn econf_dirs(ep: Seq<char>) -> Seq<Seq<char>> {
    seq![
        "--mandir="@ + ep + "/usr/share/man"@,
        "--infodir="@ + ep + "/usr/share/info"@,
        "--datadir="@ + ep + "/usr/share"@,
        "--sysconfdir="@ + ep + "/etc"@,
        "--localstatedir="@ + ep + "/var/lib"@,
    ]
}

/// The options that depend on the EAPI and on what `configure --help`
/// printed (`help`).
pub open spec fn econf_probed(eapi: u32, ep: Seq<char>, pf: Seq<char>, esysroot: Seq<char>, help: Seq<char>) -> Seq<Seq<char>> {
    opt_arg(eapi >= 8 && contains_spec(help, "--datarootdir"@), "--datarootdir="@ + ep + "/usr/share"@)
        + opt_arg(eapi >= 4 && contains_flag_spec(help, "--disable-dependency-tracking"@), "--disable-dependency-tracking"@)
        + opt_arg(eapi >= 5 && contains_flag_spec(help, "--disable-silent-rules"@), "--disable-silent-rules"@)
        + opt_arg(eapi >= 6 && contains_spec(help, "--docdir"@), "--docdir="@ + ep + "/usr/share/doc/"@ + pf)
        + opt_arg(eapi >= 6 && contains_spec(help, "--htmldir"@), "--htmldir="@ + ep + "/usr/share/doc/"@ + pf + "/html"@)
        + opt_arg(eapi >= 7 && contains_flag_spec(help, "--with-sysroot"@), "--with-sysroot="@ + sysroot_or_root(esysroot))
        + opt_arg(
            eapi >= 8 && contains_flag_spec(help, "--enable-shared"@) && contains_flag_spec(help, "--enable-static"@),
            "--disable-static"@,
        )
}

/// The arguments `econf` passes to `configure`: the standard options, the
/// probed ones, the caller's arguments and the words of `EXTRA_ECONF`.
pub open spec fn econf_args_spec(
    eapi: u32,
    eprefix: Seq<char>,
    pf: Seq<char>,
    chost: Seq<char>,
    cbuild: Seq<char>,
    ctarget: Seq<char>,
    esysroot: Seq<char>,
    extra_econf: Seq<char>,
    help: Seq<char>,
    user_args: Seq<Seq<char>>,
) -> Seq<Seq<char>> {
    seq!["--prefix="@ + eprefix + "/usr"@]
        + opt_arg(cbuild.len() > 0, "--build="@ + cbuild)
        + opt_arg(chost.len() > 0, "--host="@ + chost)
        + opt_arg(ctarget.len() > 0, "--target="@ + ctarget)
        + econf_dirs(eprefix)
        + econf_probed(eapi, eprefix, pf, esysroot, help)
        + user_args
        + words(extra_econf, true)
}

/// Whether `econf` reads `configure --help` to decide the optional flags.
pub fn econf_probes_help(eapi: u32) -> (r: bool)
    ensures
        r == (eapi >= 4),
{
    eapi >= 4
}

/// The `configure` directory: `${ECONF_SOURCE}`, or `.` when it is empty.
pub fn econf_source_dir(econf_source: &str) -> (r: String)
    ensures
        r@ == (if econf_source@.len() == 0 {
            "."@
        } else {
            econf_source@
        }),
{
    if econf_source.is_empty() {
        ".".to_owned()
    } else {
        econf_source.to_owned()
    }
}

/// A string made of three parts.
fn cat3(a: &str, b: &str, c: &str) -> (r: String)
    ensures
        r@ == a@ + b@ + c@,
{
    let mut s = String::new();
    push_str(&mut s, a);
    push_str(&mut s, b);
    push_str(&mut s, c);
    assert(s@ =~= a@ + b@ + c@);
    s
}

/// Push `s` when `c` holds.
fn push_if(v: &mut Vec<String>, c: bool, s: String)
    ensures
        strings_view(final(v)@) == strings_view(old(v)@) + opt_arg(c, s@),
{
    let ghost pre = v@;
    if c {
        v.push(s);
        assert(strings_view(v@) =~= strings_view(pre) + opt_arg(c, s@));
    } else {
        assert(strings_view(v@) =~= strings_view(pre) + opt_arg(c, s@));
    }
}

/// The options `econf` passes whatever `configure` supports.
fn econf_base(env: &EconfEnv) -> (v: Vec<String>)
    ensures
        strings_view(v@) == seq!["--prefix="@ + env.eprefix@ + "/usr"@]
            + opt_arg(env.cbuild@.len() > 0, "--build="@ + env.cbuild@)
            + opt_arg(env.chost@.len() > 0, "--host="@ + env.chost@)
            + opt_arg(env.ctarget@.len() > 0, "--target="@ + env.ctarget@)
            + econf_dirs(env.eprefix@),
{
    let ep = env.eprefix.as_str();
    let mut v: Vec<String> = Vec::new();
    v.push(cat3("--prefix=", ep, "/usr"));
    let ghost s0 = strings_view(v@);
    assert(s0 =~= seq!["--prefix="@ + ep@ + "/usr"@]);
    proof {
        reveal_strlit("");
    }
    push_if(&mut v, !env.cbuild.as_str().is_empty(), cat3("--build=", env.cbuild.as_str(), ""));
    push_if(&mut v, !env.chost.as_str().is_empty(), cat3("--host=", env.chost.as_str(), ""));
    push_if(&mut v, !env.ctarget.as_str().is_empty(), cat3("--target=", env.ctarget.as_str(), ""));
    let ghost s1 = strings_view(v@);
    assert(s1 =~= seq!["--prefix="@ + env.eprefix@ + "/usr"@]
        + opt_arg(env.cbuild@.len() > 0, "--build="@ + env.cbuild@)
        + opt_arg(env.chost@.len() > 0, "--host="@ + env.chost@)
        + opt_arg(env.ctarget@.len() > 0, "--target="@ + env.ctarget@));
    v.push(cat3("--mandir=", ep, "/usr/share/man"));
    v.push(cat3("--infodir=", ep, "/usr/share/info"));
    v.push(cat3("--datadir=", ep, "/usr/share"));
    v.push(cat3("--sysconfdir=", ep, "/etc"));
    v.push(cat3("--localstatedir=", ep, "/var/lib"));
    assert(strings_view(v@) =~= s1 + econf_dirs(ep@));
    v
}

/// The options that `econf` adds when the EAPI has them and `configure`
/// supports them.
fn econf_probed_args(env: &EconfEnv, help: &str) -> (v: Vec<String>)
    ensures
        strings_view(v@) == econf_probed(env.eapi, env.eprefix@, env.pf@, env.esysroot@, help@),
{
    let eapi = env.eapi;
    let ep = env.eprefix.as_str();
    let pf = env.pf.as_str();
    let mut v: Vec<String> = Vec::new();
    push_if(&mut v, eapi >= 8 && contains(help, "--datarootdir"), cat3("--datarootdir=", ep, "/usr/share"));
    push_if(
        &mut v,
        eapi >= 4 && contains_flag(help, "--disable-dependency-tracking"),
        "--disable-dependency-tracking".to_owned(),
    );
    push_if(
        &mut v,
        eapi >= 5 && contains_flag(help, "--disable-silent-rules"),
        "--disable-silent-rules".to_owned(),
    );
    let mut docdir = cat3("--docdir=", ep, "/usr/share/doc/");
    push_str(&mut docdir, pf);
    push_if(&mut v, eapi >= 6 && contains(help, "--docdir"), docdir);
    let mut htmldir = cat3("--htmldir=", ep, "/usr/share/doc/");
    push_str(&mut htmldir, pf);
    push_str(&mut htmldir, "/html");
    push_if(&mut v, eapi >= 6 && contains(help, "--htmldir"), htmldir);
    let root = if env.esysroot.as_str().is_empty() {
        "/"
    } else {
        env.esysroot.as_str()
    };
    proof {
        reveal_strlit("");
    }
    push_if(
        &mut v,
        eapi >= 7 && contains_flag(help, "--with-sysroot"),
        cat3("--with-sysroot=", root, ""),
    );
    push_if(
        &mut v,
        eapi >= 8 && contains_flag(help, "--enable-shared") && contains_flag(help, "--enable-static"),
        "--disable-static".to_owned(),
    );
    assert(strings_view(v@) =~= econf_probed(eapi, ep@, pf@, env.esysroot@, help@));
    v
}

/// `econf args...`: the arguments passed to `configure`, given the
/// environment, what `configure --help` printed (empty when it was not
/// read) and the caller's arguments.
pub fn econf_args(env: &EconfEnv, help: &str, user_args: &Vec<String>) -> (r: Vec<String>)
    ensures
        strings_view(r@) == econf_args_spec(
            env.eapi,
            env.eprefix@,
            env.pf@,
            env.chost@,
            env.cbuild@,
            env.ctarget@,
            env.esysroot@,
            env.extra_econf@,
            help@,
            strings_view(user_args@),
        ),
{
    let mut v = econf_base(env);
    let probed = econf_probed_args(env, help);
    extend_strings(&mut v, &probed);
    extend_strings(&mut v, user_args);
    let extra = opt_word_strings(Some(env.extra_econf.as_str()));
    extend_strings(&mut v, &extra);
    v
}

} // verus!
