use guarding::package_matcher::{convert_to_regex, PackageMatcher};

#[test]
fn package_matcher_should_working_in_process() {
    assert_eq!(true, guarding::package_matcher::matches("..".to_string(), "com.phodal.zero").unwrap());
    assert_eq!(
        true,
        guarding::package_matcher::matches(
            "com.(*)..service.(**)".to_string(),
            "com.mycompany.some.service.special.name"
        )
        .unwrap()
    );
    assert_eq!(
        true,
        guarding::package_matcher::matches(
            "some..middle..pkg".to_string(),
            "some.arbitrary.middle.more.pkg"
        )
        .unwrap()
    );
}

#[test]
fn should_handle_replace() {
    assert_eq!(
        false,
        guarding::package_matcher::matches("*..pkg".to_string(), "some.arbitrary.pkg.toomuch").unwrap()
    );
}

#[test]
fn literal_patterns_match_themselves() {
    for p in ["some.arbitrary.pkg", "com", "a.b", "java.util.Map", "x_1.y2"] {
        assert!(guarding::package_matcher::matches(p.to_string(), p).unwrap(), "{}", p);
    }
}

#[test]
fn literal_pattern_rejects_other_names() {
    assert!(!guarding::package_matcher::matches("some.arbitrary.pkg".to_string(), "some.thing.different").unwrap());
    assert!(!guarding::package_matcher::matches("some.pkg".to_string(), "someepkg").unwrap());
}

#[test]
fn wildcards_match_segments() {
    assert!(guarding::package_matcher::matches("*.*.*".to_string(), "wrong.arbitrary.pkg").unwrap());
    assert!(!guarding::package_matcher::matches("*.*.*".to_string(), "wrong.arbitrary.pkg.toomuch").unwrap());
    assert!(guarding::package_matcher::matches("some..pkg".to_string(), "some.arbitrary.pkg").unwrap());
    assert!(guarding::package_matcher::matches("..some".to_string(), "some").unwrap());
}

#[test]
fn converts_double_dot_exactly() {
    assert_eq!(
        "^(?:(?:^\\w*)?\\.(?:\\w+\\.)*(?:\\w*$)?)?$",
        convert_to_regex("..".to_string())
    );
}

#[test]
fn converts_wildcards_exactly() {
    assert_eq!("^\\w+\\.a$", convert_to_regex("*.a".to_string()));
    assert_eq!(
        "^a\\.(\\w+(?:\\.\\w+)*)$",
        convert_to_regex("a.(**)".to_string())
    );
}

#[test]
fn conversion_is_deterministic() {
    let p = "com.(*)..service.(**)";
    assert_eq!(convert_to_regex(p.to_string()), convert_to_regex(p.to_string()));
    let a = PackageMatcher::new(p).unwrap();
    let b = PackageMatcher::new(p).unwrap();
    for t in ["com.x.service.y", "com.service", "org.a.service.b", ""] {
        assert_eq!(a.is_match(t), b.is_match(t));
        assert_eq!(a.is_match(t), guarding::package_matcher::matches(p.to_string(), t).unwrap());
    }
}

#[test]
fn impossible_pattern_is_an_error() {
    let e = guarding::package_matcher::matches("a(b".to_string(), "a(b").unwrap_err();
    assert_eq!("a(b", e.pattern);
    assert!(PackageMatcher::new("x)").is_err());
}
