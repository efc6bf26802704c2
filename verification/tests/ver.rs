use portage_repo::ver::{ver_cut, ver_rs, ver_test};

fn strings(v: &[&str]) -> Vec<String> {
    v.iter().map(|s| s.to_string()).collect()
}

#[test]
fn ver_cut_takes_components_and_separators() {
    assert_eq!(ver_cut("1-2", "1.2.3").unwrap(), "1.2");
    assert_eq!(ver_cut("2-", "1.2.3").unwrap(), "2.3");
    assert_eq!(ver_cut("1", "1.2.3").unwrap(), "1");
    assert_eq!(ver_cut("3", "1.2b").unwrap(), "b");
    assert_eq!(ver_cut("1-3", "1.2b_rc4").unwrap(), "1.2b");
    assert_eq!(ver_cut("0-1", ".1.2").unwrap(), ".1");
    assert_eq!(ver_cut("2-9", "1.2").unwrap(), "2");
    assert_eq!(ver_cut("5", "1.2").unwrap(), "");
}

#[test]
fn ver_cut_refuses_bad_ranges() {
    assert_eq!(ver_cut("a-b", "1.2").unwrap_err(), "range must start with a number");
    assert_eq!(ver_cut("3-1", "1.2.3").unwrap_err(), "end of range must be >= start");
    assert_eq!(ver_cut("1-x", "1.2.3").unwrap_err(), "end of range must be >= start");
    assert_eq!(ver_cut("99999999999999999999", "1").unwrap_err(), "range number too large");
}

#[test]
fn ver_rs_replaces_separators() {
    assert_eq!(ver_rs(&strings(&["1", "-", "1.2.3"]), "").unwrap(), "1-2.3");
    assert_eq!(ver_rs(&strings(&["1-2", "_", "1.2.3"]), "").unwrap(), "1_2_3");
    assert_eq!(ver_rs(&strings(&["2", ".", "1.2b"]), "").unwrap(), "1.2.b");
    assert_eq!(ver_rs(&strings(&["1", "-", "2", "_", "1.2.3"]), "").unwrap(), "1-2_3");
    assert_eq!(ver_rs(&strings(&["0", "x", "1.2"]), "").unwrap(), "1.2");
    assert_eq!(ver_rs(&strings(&["1", "_"]), "4.5").unwrap(), "4_5");
    assert_eq!(ver_rs(&strings(&["x", "_", "1.2"]), "").unwrap_err(), "range must start with a number");
}

#[test]
fn ver_test_compares_versions() {
    assert_eq!(ver_test(&strings(&["1.2", "-lt", "1.10"]), ""), Ok(true));
    assert_eq!(ver_test(&strings(&["1.0", "-eq", "1.0.0"]), ""), Ok(false));
    assert_eq!(ver_test(&strings(&["1", "-gt", "2"]), ""), Ok(false));
    assert_eq!(ver_test(&strings(&["-ge", "2"]), "3"), Ok(true));
    assert_eq!(ver_test(&strings(&["1.0_rc1", "-le", "1.0"]), ""), Ok(true));
    assert_eq!(ver_test(&strings(&["foo", "-lt", "1"]), ""), Err("invalid version: foo".to_string()));
    assert_eq!(ver_test(&strings(&["1", "-xx", "2"]), ""), Err("invalid operator: -xx".to_string()));
    assert_eq!(ver_test(&strings(&["1"]), ""), Err("bad number of arguments".to_string()));
}
