use portage_repo::eapi::Eapi;

#[test]
fn eapi_names_round_trip() {
    let all = [
        Eapi::Zero,
        Eapi::One,
        Eapi::Two,
        Eapi::Three,
        Eapi::Four,
        Eapi::Five,
        Eapi::Six,
        Eapi::Seven,
        Eapi::Eight,
        Eapi::Nine,
    ];
    for (i, e) in all.iter().enumerate() {
        assert_eq!(e.as_str(), i.to_string());
        assert_eq!(e.level() as usize, i);
        assert_eq!(Eapi::parse(e.as_str()), Some(*e));
    }
    assert_eq!(Eapi::parse("10"), None);
    assert_eq!(Eapi::parse(""), None);
    assert_eq!(Eapi::parse("x"), None);
}
