use godot_version::version::{has_identifiers, Version, VersionError, MAX_TEXT_LEN};

/// Every text of at most `max` characters over `alphabet`.
fn texts(alphabet: &[char], max: usize) -> Vec<String> {
    let mut all = vec![String::new()];
    let mut last = vec![String::new()];
    for _ in 0..max {
        let mut next = Vec::new();
        for text in &last {
            for c in alphabet {
                let mut longer = text.clone();
                longer.push(*c);
                next.push(longer);
            }
        }
        all.extend(next.iter().cloned());
        last = next;
    }
    all
}

#[test]
fn prerelease_identifiers_are_those_that_semver_takes() {
    for text in texts(&['0', '1', 'a', 'Z', '-', '.', '+', '_'], 5) {
        assert_eq!(has_identifiers(&text, true), semver::Prerelease::new(&text).is_ok(), "{:?}", text);
    }
    for text in ["", "alpha", "alpha.1", "rc.0", "rc.01", "0", "00", "0.0", "01a", "a.b.c", "a..b", ".a", "a.", "b\u{e9}ta", "x y", "9007199254740993.18446744073709551616"] {
        assert_eq!(has_identifiers(text, true), semver::Prerelease::new(text).is_ok(), "{:?}", text);
    }
}

#[test]
fn build_metadata_is_what_semver_takes() {
    for text in texts(&['0', '1', 'a', 'Z', '-', '.', '+', '_'], 5) {
        assert_eq!(has_identifiers(&text, false), semver::BuildMetadata::new(&text).is_ok(), "{:?}", text);
    }
    assert!(has_identifiers("001", false));
    assert!(!has_identifiers("001", true));
    assert!(has_identifiers("", false));
}

#[test]
fn accepted_texts_are_written_by_well_formed_parts() {
    for text in texts(&['0', '1', '.', '-', '+', 'a'], 7) {
        match (Version::parse(&text), semver::Version::parse(&text)) {
            (Ok(v), Ok(reference)) => {
                assert!(v.is_well_formed(), "{:?}", text);
                assert_eq!(v.to_text(), text);
                assert_eq!((v.major, v.minor, v.patch), (reference.major, reference.minor, reference.patch));
                assert_eq!(v.pre, reference.pre.as_str());
                assert_eq!(v.build, reference.build.as_str());
            }
            (Err(VersionError::InvalidVersionFormat), Err(_)) => {}
            (ours, _) => panic!("{:?} read as {:?}", text, ours),
        }
    }
}

#[test]
fn well_formed_parts_write_an_accepted_text() {
    let parts = texts(&['0', '7', 'a', '-', '.'], 3);
    let numbers = [0, 1, 10, u64::MAX];
    for pre in &parts {
        for build in &parts {
            for major in numbers {
                let version = Version { major, minor: 2, patch: 30, pre: pre.clone(), build: build.clone() };
                let text = version.to_text();
                match Version::parse(&text) {
                    Ok(read) => assert!(read == version || !version.is_well_formed(), "{:?}", text),
                    Err(_) => assert!(!version.is_well_formed(), "{:?}", text),
                }
                if version.is_well_formed() {
                    assert!(Version::parse(&text) == Ok(version));
                }
            }
        }
    }
}

#[test]
fn well_formedness_looks_at_both_series() {
    let fine = Version { major: 1, minor: 2, patch: 3, pre: String::from("rc.1"), build: String::from("007") };
    assert!(fine.is_well_formed());
    assert!(!Version { pre: String::from("rc.01"), ..fine.clone() }.is_well_formed());
    assert!(!Version { build: String::from("a..b"), ..fine.clone() }.is_well_formed());
    assert!(!Version { pre: String::from("rc 1"), ..fine.clone() }.is_well_formed());
    assert!(Version { pre: String::new(), build: String::new(), ..fine }.is_well_formed());
}

#[test]
fn overlong_texts_are_no_versions() {
    let mut text = String::from("1.0.0-");
    text.push_str(&"a".repeat(MAX_TEXT_LEN - 6));
    let longest = Version::parse(&text).unwrap();
    assert_eq!(longest.pre.len(), MAX_TEXT_LEN - 6);
    assert_eq!((longest.major, longest.minor, longest.patch), (1, 0, 0));
    text.push('a');
    assert_eq!(Version::parse(&text).unwrap_err(), VersionError::InvalidVersionFormat);
    assert!(semver::Version::parse(&text).is_ok());
}
