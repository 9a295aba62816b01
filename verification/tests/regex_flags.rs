use red_js_interpreter::regex_flags::checked_flags;

#[test]
fn flags_come_out_in_canonical_order() {
    assert_eq!(checked_flags("gi"), Some("gi".to_string()));
    assert_eq!(checked_flags("ig"), Some("gi".to_string()));
    assert_eq!(checked_flags("yvusmigd"), Some("dgimsuvy".to_string()));
}

#[test]
fn no_flags_is_valid() {
    assert_eq!(checked_flags(""), Some(String::new()));
}

#[test]
fn unknown_or_repeated_flags_are_refused() {
    assert_eq!(checked_flags("x"), None);
    assert_eq!(checked_flags("gg"), None);
    assert_eq!(checked_flags("gix"), None);
}

#[test]
fn checking_twice_changes_nothing() {
    for f in ["", "g", "mig", "yd"] {
        let once = checked_flags(f).unwrap();
        assert_eq!(checked_flags(&once), Some(once.clone()));
    }
}
