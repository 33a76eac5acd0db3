use fac::dependency::{parse_dependency, Dependency};
use fac::error::ErrorKind;
use fac::types::ModName;
use fac::version::{
    fixup_version, parse_version, parse_version_req, ModVersionReq, ReleaseVersion, VersionReq,
};

fn test_deserialize_release_version_inner(s: &str, expected: &str) {
    let expected = semver::Version::parse(expected).unwrap();
    let expected = ReleaseVersion::new(expected.major, expected.minor, expected.patch);
    let text: String = serde_json::from_str(s).unwrap();
    let actual: ReleaseVersion = parse_version(&text).unwrap();
    assert_eq!(actual, expected);
}

#[test]
fn test_deserialize_release_version() {
    test_deserialize_release_version_inner(r#""0.2.2""#, "0.2.2");
    test_deserialize_release_version_inner(r#""0.14.0""#, "0.14.0");
    test_deserialize_release_version_inner(r#""0.2.02""#, "0.2.2");
    test_deserialize_release_version_inner(r#""0.14.00""#, "0.14.0");
}

/// The requirement that semver reads from `text`, as this library writes it.
fn expected_req(text: &str) -> ModVersionReq {
    let read = semver::VersionReq::parse(text).unwrap();
    match read.comparators.as_slice() {
        [] => ModVersionReq(VersionReq::Any),
        [one] => {
            let version =
                ReleaseVersion::new(one.major, one.minor.unwrap(), one.patch.unwrap());
            assert!(one.pre.is_empty());
            ModVersionReq(match one.op {
                semver::Op::Exact => VersionReq::Exact(version),
                semver::Op::Less => VersionReq::Less(version),
                semver::Op::LessEq => VersionReq::LessEq(version),
                semver::Op::GreaterEq => VersionReq::GreaterEq(version),
                semver::Op::Greater => VersionReq::Greater(version),
                other => panic!("{:?} has no place here", other),
            })
        }
        _ => panic!("{:?} has more than one comparator", text),
    }
}

fn test_deserialize_dependency_inner(s: &str, name: &str, version: &str, required: bool) {
    let expected = Dependency {
        name: ModName(name.to_string()),
        version: expected_req(version),
        required,
    };
    let text: String = serde_json::from_str(s).unwrap();
    let actual: Dependency = parse_dependency(&text).unwrap();
    assert_eq!(actual, expected);
}

#[test]
fn test_deserialize_dependency() {
    test_deserialize_dependency_inner(r#""base""#, "base", "*", true);
    test_deserialize_dependency_inner(r#""? base""#, "base", "*", false);
    test_deserialize_dependency_inner(r#""?base""#, "base", "*", false);
    test_deserialize_dependency_inner(r#""base >= 0.14.0""#, "base", ">=0.14.0", true);
    test_deserialize_dependency_inner(r#""? base >= 0.14.0""#, "base", ">=0.14.0", false);
    test_deserialize_dependency_inner(r#""base >= 0.14.00""#, "base", ">=0.14.0", true);
    test_deserialize_dependency_inner(
        r#""some name with spaces >= 1.2.3""#,
        "some name with spaces",
        ">=1.2.3",
        true,
    );
    test_deserialize_dependency_inner(
        r#""? some name with spaces >= 1.2.3""#,
        "some name with spaces",
        ">=1.2.3",
        false,
    );
}

#[test]
fn version_literals_parse_to_their_numbers() {
    assert_eq!(parse_version("0.2.2").unwrap(), ReleaseVersion::new(0, 2, 2));
    assert_eq!(parse_version("0.14.0").unwrap(), ReleaseVersion::new(0, 14, 0));
    assert_eq!(parse_version("0.2.02").unwrap(), ReleaseVersion::new(0, 2, 2));
    assert_eq!(parse_version("0.14.00").unwrap(), ReleaseVersion::new(0, 14, 0));
    assert_eq!(parse_version("0.10.00").unwrap(), ReleaseVersion::new(0, 10, 0));
    assert_eq!(parse_version("0.14").unwrap(), ReleaseVersion::new(0, 14, 0));
    assert_eq!(parse_version("1.2").unwrap(), ReleaseVersion::new(1, 2, 0));
    assert_eq!(parse_version("1").unwrap(), ReleaseVersion::new(1, 0, 0));
    assert_eq!(parse_version("1.02").unwrap(), ReleaseVersion::new(1, 2, 0));
    assert_eq!(parse_version("0.007").unwrap(), ReleaseVersion::new(0, 7, 0));
    assert_eq!(parse_version("0").unwrap(), ReleaseVersion::new(0, 0, 0));
    // An empty component counts as 0, and so does a component that is not there.
    assert_eq!(parse_version("").unwrap(), ReleaseVersion::new(0, 0, 0));
    assert_eq!(parse_version("1..").unwrap(), ReleaseVersion::new(1, 0, 0));
    assert_eq!(parse_version("1.2.").unwrap(), ReleaseVersion::new(1, 2, 0));
    assert_eq!(parse_version("1..3").unwrap(), ReleaseVersion::new(1, 0, 3));
    assert_eq!(parse_version("00.01.").unwrap(), ReleaseVersion::new(0, 1, 0));
    assert_eq!(parse_version("18446744073709551615.0.1").unwrap(), ReleaseVersion::new(u64::MAX, 0, 1));
}

#[test]
fn version_round_trip() {
    for v in [
        ReleaseVersion::new(0, 0, 0),
        ReleaseVersion::new(1, 2, 3),
        ReleaseVersion::new(0, 15, 40),
        ReleaseVersion::new(u64::MAX, 10, 100),
    ] {
        assert_eq!(parse_version(&v.to_string()).unwrap(), v);
    }
    assert_eq!(ReleaseVersion::new(0, 15, 40).to_string(), "0.15.40");
}

#[test]
fn malformed_versions_are_refused() {
    for text in ["1.2.3.4", "a.b.c", "a", "1.x", "01.02", "007", "1.2.x", "1.2.3-alpha", "1.2.3+build", " 1.2.3", "1 .2", "18446744073709551616.0.0", "18446744073709551616"] {
        match parse_version(text) {
            Err(ErrorKind::ParseVersion(input)) => assert_eq!(input, text),
            other => panic!("{:?} gave {:?}", text, other),
        }
    }
}

#[test]
fn fixup_strips_leading_zeros() {
    assert_eq!(fixup_version("0.14.00"), "0.14.0");
    assert_eq!(fixup_version("0.2.02"), "0.2.2");
    assert_eq!(fixup_version("1.02.003"), "1.2.3");
    assert_eq!(fixup_version("0.10.0"), "0.10.0");
    assert_eq!(fixup_version("012.0.0"), "012.0.0");
    assert_eq!(fixup_version("00.1.1"), "0.1.1");
    assert_eq!(fixup_version(""), "0");
    assert_eq!(fixup_version("1..2"), "1.0.2");
    assert_eq!(fixup_version("1.2."), "1.2.0");
    assert_eq!(fixup_version(".5"), "0.5");
    assert_eq!(fixup_version("0.14"), "0.14");
    assert_eq!(fixup_version("1"), "1");
}

#[test]
fn version_order_is_lexicographic() {
    let a = ReleaseVersion::new(0, 14, 9);
    let b = ReleaseVersion::new(0, 15, 0);
    let c = ReleaseVersion::new(1, 0, 0);
    assert!(a.lt(&b) && b.lt(&c) && a.lt(&c));
    assert!(!b.lt(&a) && !a.lt(&a));
    assert!(a.le(&a) && a.le(&b) && !b.le(&a));
    assert!(a < b && b < c);
}

#[test]
fn requirements_match_by_order() {
    let v = ReleaseVersion::new(1, 2, 3);
    let older = ReleaseVersion::new(1, 2, 2);
    let newer = ReleaseVersion::new(1, 3, 0);
    assert!(ModVersionReq(VersionReq::Any).matches(&v));
    assert!(ModVersionReq(VersionReq::Exact(v)).matches(&v));
    assert!(!ModVersionReq(VersionReq::Exact(v)).matches(&newer));
    assert!(ModVersionReq(VersionReq::Less(v)).matches(&older));
    assert!(!ModVersionReq(VersionReq::Less(v)).matches(&v));
    assert!(ModVersionReq(VersionReq::LessEq(v)).matches(&v));
    assert!(!ModVersionReq(VersionReq::LessEq(v)).matches(&newer));
    assert!(ModVersionReq(VersionReq::GreaterEq(v)).matches(&v));
    assert!(!ModVersionReq(VersionReq::GreaterEq(v)).matches(&older));
    assert!(ModVersionReq(VersionReq::Greater(v)).matches(&newer));
    assert!(!ModVersionReq(VersionReq::Greater(v)).matches(&v));
}

#[test]
fn requirement_texts_parse() {
    let v = ReleaseVersion::new(0, 14, 0);
    assert_eq!(parse_version_req("*").unwrap(), ModVersionReq(VersionReq::Any));
    assert_eq!(parse_version_req("=0.14.0").unwrap(), ModVersionReq(VersionReq::Exact(v)));
    assert_eq!(parse_version_req("<0.14.0").unwrap(), ModVersionReq(VersionReq::Less(v)));
    assert_eq!(parse_version_req("<=0.14.0").unwrap(), ModVersionReq(VersionReq::LessEq(v)));
    assert_eq!(parse_version_req(">=0.14.0").unwrap(), ModVersionReq(VersionReq::GreaterEq(v)));
    assert_eq!(parse_version_req(">0.14.0").unwrap(), ModVersionReq(VersionReq::Greater(v)));
    assert_eq!(parse_version_req(">= 0.14.0").unwrap(), ModVersionReq(VersionReq::GreaterEq(v)));
    assert_eq!(parse_version_req(">= 0.14.00").unwrap(), ModVersionReq(VersionReq::GreaterEq(v)));
    assert_eq!(parse_version_req(">=0.14.0").unwrap().to_string(), ">=0.14.0");
    assert_eq!(parse_version_req("*").unwrap().to_string(), "*");
    assert_eq!(parse_version_req(">=1.2").unwrap(), ModVersionReq(VersionReq::GreaterEq(ReleaseVersion::new(1, 2, 0))));
    assert_eq!(parse_version_req("> 1").unwrap(), ModVersionReq(VersionReq::Greater(ReleaseVersion::new(1, 0, 0))));
    assert_eq!(parse_version_req("=0.14").unwrap(), ModVersionReq(VersionReq::Exact(ReleaseVersion::new(0, 14, 0))));
    for text in ["", "0.14.0", "~0.14.0", "^1", ">=x", ">=1.2.3.4", ">=1.2.3, <2.0.0", "**"] {
        match parse_version_req(text) {
            Err(ErrorKind::ParseVersion(input)) => assert_eq!(input, text),
            other => panic!("{:?} gave {:?}", text, other),
        }
    }
}

#[test]
fn dependency_literals() {
    let any = ModVersionReq(VersionReq::Any);
    let at_least = ModVersionReq(VersionReq::GreaterEq(ReleaseVersion::new(0, 14, 0)));
    let d = parse_dependency("base").unwrap();
    assert_eq!((d.name().as_str(), *d.version(), d.required()), ("base", any, true));
    let d = parse_dependency("? base").unwrap();
    assert_eq!((d.name().as_str(), *d.version(), d.required()), ("base", any, false));
    let d = parse_dependency("?base").unwrap();
    assert_eq!((d.name().as_str(), *d.version(), d.required()), ("base", any, false));
    let d = parse_dependency("base >= 0.14.0").unwrap();
    assert_eq!((d.name().as_str(), *d.version(), d.required()), ("base", at_least, true));
    let d = parse_dependency("base >= 0.14.00").unwrap();
    assert_eq!((d.name().as_str(), *d.version(), d.required()), ("base", at_least, true));
    let d = parse_dependency("some name with spaces >= 1.2.3").unwrap();
    assert_eq!(d.name().as_str(), "some name with spaces");
    assert_eq!(*d.version(), ModVersionReq(VersionReq::GreaterEq(ReleaseVersion::new(1, 2, 3))));
    assert!(d.required());
    let d = parse_dependency("  ? other<=2.0.0  ").unwrap();
    assert_eq!(d.name().as_str(), "other");
    assert_eq!(*d.version(), ModVersionReq(VersionReq::LessEq(ReleaseVersion::new(2, 0, 0))));
    assert!(!d.required());
}

#[test]
fn dependency_errors() {
    for text in ["", ">= 1.0.0", "a = b", "name >= ", "name >> 1.0.0"] {
        match parse_dependency(text) {
            Err(ErrorKind::ParseDependency(input)) => assert_eq!(input, text),
            other => panic!("{:?} gave {:?}", text, other),
        }
    }
    let d = parse_dependency("name >= 1.2").unwrap();
    assert_eq!(d.name().as_str(), "name");
    assert_eq!(*d.version(), ModVersionReq(VersionReq::GreaterEq(ReleaseVersion::new(1, 2, 0))));
    match parse_dependency("name >= 1.2.3.4.5") {
        Err(ErrorKind::ParseVersion(input)) => assert_eq!(input, ">=1.2.3.4.5"),
        other => panic!("gave {:?}", other),
    }
    match parse_dependency("name = 1.2.3.4") {
        Err(ErrorKind::ParseVersion(input)) => assert_eq!(input, "=1.2.3.4"),
        other => panic!("gave {:?}", other),
    }
}

fn raw(version: &str, game: &str, deps: &[&str]) -> fac::raw::RawRelease {
    fac::raw::RawRelease {
        name: "boblibrary".to_string(),
        version: version.to_string(),
        factorio_version: game.to_string(),
        dependencies: deps.iter().map(|d| d.to_string()).collect(),
        download_url: "/api/downloads/data/mods/51/boblibrary_0.15.1.zip".to_string(),
        file_name: "boblibrary_0.15.1.zip".to_string(),
        file_size: 86_294,
    }
}

#[test]
fn releases_are_read_from_text() {
    let release =
        fac::raw::parse_release(raw("0.15.01", ">=0.15.0", &["base >= 0.15.0", "? other"])).unwrap();
    assert_eq!(release.name.as_str(), "boblibrary");
    assert_eq!(release.version, ReleaseVersion::new(0, 15, 1));
    assert_eq!(
        release.factorio_version,
        ModVersionReq(VersionReq::GreaterEq(ReleaseVersion::new(0, 15, 0)))
    );
    assert_eq!(release.dependencies.len(), 2);
    assert_eq!(release.dependencies[0], parse_dependency("base >= 0.15.0").unwrap());
    assert_eq!(release.dependencies[1], parse_dependency("? other").unwrap());
    assert_eq!(release.download_url.as_str(), "/api/downloads/data/mods/51/boblibrary_0.15.1.zip");
    assert_eq!(release.file_name, "boblibrary_0.15.1.zip");
    assert_eq!(release.file_size, 86_294);
}

#[test]
fn unreadable_releases_fail_with_the_first_fault() {
    match fac::raw::parse_release(raw("one", "nonsense", &["<"])) {
        Err(ErrorKind::ParseVersion(text)) => assert_eq!(text, "one"),
        other => panic!("gave {:?}", other),
    }
    match fac::raw::parse_release(raw("1.0.0", "nonsense", &["<"])) {
        Err(ErrorKind::ParseVersion(text)) => assert_eq!(text, "nonsense"),
        other => panic!("gave {:?}", other),
    }
    match fac::raw::parse_release(raw("1.0.0", "*", &["base", "<", "other >= x"])) {
        Err(ErrorKind::ParseDependency(text)) => assert_eq!(text, "<"),
        other => panic!("gave {:?}", other),
    }
    match fac::raw::parse_release(raw("1.0.0", "*", &["base", "other >= 1.2.3.4"])) {
        Err(ErrorKind::ParseVersion(text)) => assert_eq!(text, ">=1.2.3.4"),
        other => panic!("gave {:?}", other),
    }
    let release = fac::raw::parse_release(raw("1.0", ">=0.15", &["other >= 1"])).unwrap();
    assert_eq!(release.version, ReleaseVersion::new(1, 0, 0));
    assert_eq!(
        release.factorio_version,
        ModVersionReq(VersionReq::GreaterEq(ReleaseVersion::new(0, 15, 0)))
    );
}

#[test]
fn requirements_agree_with_semver() {
    let versions = [(0, 0, 0), (0, 14, 0), (0, 14, 1), (0, 15, 0), (1, 0, 0), (1, 2, 3), (2, 0, 0)];
    for operator in ["=", "<", "<=", ">=", ">"] {
        for (a, b, c) in versions {
            let text = format!("{}{}.{}.{}", operator, a, b, c);
            let ours = parse_version_req(&text).unwrap();
            let theirs = semver::VersionReq::parse(&text).unwrap();
            for (x, y, z) in versions {
                assert_eq!(
                    ours.matches(&ReleaseVersion::new(x, y, z)),
                    theirs.matches(&semver::Version::new(x, y, z)),
                    "{} on {}.{}.{}",
                    text,
                    x,
                    y,
                    z
                );
            }
        }
    }
    let any = parse_version_req("*").unwrap();
    let star = semver::VersionReq::parse("*").unwrap();
    for (x, y, z) in versions {
        assert_eq!(
            any.matches(&ReleaseVersion::new(x, y, z)),
            star.matches(&semver::Version::new(x, y, z))
        );
    }
}

#[test]
fn versions_agree_with_semver() {
    for text in ["0.2.2", "0.14.0", "1.2.3", "10.20.30", "0.0.0", "1.2", "1.2.3.4", "01.2.3", "1.2.3-alpha", "x.y.z", ""] {
        let theirs = semver::Version::parse(text)
            .ok()
            .filter(|v| v.pre.is_empty() && v.build.is_empty())
            .map(|v| (v.major, v.minor, v.patch));
        let ours = fac::version::parse_canonical(text).map(|v| (v.major, v.minor, v.patch));
        assert_eq!(ours, theirs, "{:?}", text);
    }
}
