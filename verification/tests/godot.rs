use godot_version::godot::GodotVersion;
use godot_version::version::{Version, VersionError};

/// The hosts that release files exist for, as the toolchain names them.
const PLATFORMS: [(&str, &str); 9] = [
    ("windows", "x86_64"),
    ("windows", "x86"),
    ("windows", "aarch64"),
    ("macos", "x86_64"),
    ("macos", "aarch64"),
    ("linux", "x86_64"),
    ("linux", "x86"),
    ("linux", "arm"),
    ("linux", "aarch64"),
];

#[test]
fn test_version_parsing() {
    // Test stable versions
    let v1 = GodotVersion::new("4.2.1", false).unwrap();
    assert_eq!(v1.godot_version_string(), "4.2.1");
    assert!(!v1.is_prerelease());

    // Test stable with suffix
    let v2 = GodotVersion::new("4.2.1-stable", false).unwrap();
    assert_eq!(v2.godot_version_string(), "4.2.1");
    assert!(!v2.is_prerelease());

    // Test beta versions
    let v3 = GodotVersion::new("4.3.0-beta2", false).unwrap();
    assert_eq!(v3.godot_version_string(), "4.3.0-beta2");
    assert!(v3.is_prerelease());

    // Test rc versions
    let v4 = GodotVersion::new("4.1.0-rc.1", false).unwrap();
    assert_eq!(v4.godot_version_string(), "4.1.0-rc1");
    assert!(v4.is_prerelease());

    // Test .NET versions
    let v5 = GodotVersion::new("4.2.1", true).unwrap();
    assert_eq!(v5.to_string(), "4.2.1 (.NET)");
    assert_eq!(v5.installation_name(), "godot-4.2.1-dotnet");

    // Test short prerelease versions like "4.5-beta1"
    let v6 = GodotVersion::new("4.5-beta1", false).unwrap();
    assert_eq!(v6.godot_version_string(), "4.5.0-beta1");
    assert!(v6.is_prerelease());
}

#[test]
fn test_archive_names() {
    for (os, arch) in PLATFORMS {
        let v1 = GodotVersion::new("4.2.1", false).unwrap();
        let archive = v1.archive_name(os, arch);
        assert!(archive.contains("Godot_v4.2.1-stable_"));
        assert!(archive.ends_with(".zip"));

        let v2 = GodotVersion::new("4.3.0-beta2", true).unwrap();
        let archive = v2.archive_name(os, arch);
        assert!(archive.contains("Godot_v4.3.0-beta2_mono_"));
        assert!(archive.ends_with(".zip"));
    }
}

#[test]
fn test_platform_suffix_detection() {
    let valid_suffixes = [
        "win64.exe",
        "win32.exe",
        "macos.universal",
        "linux.x86_64",
        "linux.x86_32",
        "linux.arm32",
        "linux.arm64",
    ];
    for (os, arch) in PLATFORMS {
        let suffix = GodotVersion::get_platform_suffix(os, arch);
        assert!(!suffix.is_empty());
        assert!(
            valid_suffixes.contains(&suffix),
            "Got unexpected suffix: {}",
            suffix
        );
    }
}

#[test]
fn test_executable_path_construction() {
    for (os, arch) in PLATFORMS {
        let v1 = GodotVersion::new("4.2.1", false).unwrap();
        let exe_path = v1.get_executable_path(os, arch);
        assert!(!exe_path.is_empty());

        let v2 = GodotVersion::new("4.2.1", true).unwrap();
        let dotnet_exe_path = v2.get_executable_path(os, arch);
        assert!(!dotnet_exe_path.is_empty());

        // Paths should be different for dotnet vs non-dotnet
        assert_ne!(exe_path, dotnet_exe_path);
    }
}

#[test]
fn platform_suffix_table() {
    let f = GodotVersion::get_platform_suffix;
    assert_eq!(f("windows", "x86_64"), "win64.exe");
    assert_eq!(f("windows", "x86"), "win32.exe");
    assert_eq!(f("windows", "aarch64"), "win64.exe");
    assert_eq!(f("macos", "x86_64"), "macos.universal");
    assert_eq!(f("macos", "aarch64"), "macos.universal");
    assert_eq!(f("linux", "x86_64"), "linux.x86_64");
    assert_eq!(f("linux", "x86"), "linux.x86_32");
    assert_eq!(f("linux", "arm"), "linux.arm32");
    assert_eq!(f("linux", "aarch64"), "linux.arm64");
    assert_eq!(f("linux", "riscv64"), "linux.x86_64");
    assert_eq!(f("freebsd", "x86"), "linux.x86_64");
    assert_eq!(f("", ""), "linux.x86_64");
    assert_eq!(f("Windows", "x86"), "linux.x86_64");
}

#[test]
fn stable_suffix_gives_the_same_release() {
    let plain = GodotVersion::new("4.2.1", false).unwrap();
    let marked = GodotVersion::new("4.2.1-stable", false).unwrap();
    assert_eq!(plain.godot_version_string(), "4.2.1");
    assert_eq!(marked.godot_version_string(), plain.godot_version_string());
    assert_eq!(marked.version.major, 4);
    assert_eq!(marked.version.minor, 2);
    assert_eq!(marked.version.patch, 1);
    assert_eq!(marked.version.pre, "");
    assert_eq!(marked.version.build, "");
}

#[test]
fn labels_and_installation_names() {
    let standard = GodotVersion::new("4.2.1", false).unwrap();
    assert_eq!(standard.to_string(), "4.2.1");
    assert_eq!(standard.installation_name(), "godot-4.2.1");
    let dotnet = GodotVersion::new("4.3-rc2", true).unwrap();
    assert_eq!(dotnet.to_string(), "4.3.0-rc2 (.NET)");
    assert_eq!(dotnet.installation_name(), "godot-4.3.0-rc2-dotnet");
    assert!(dotnet.is_dotnet);
    assert!(!standard.is_dotnet);
}

#[test]
fn archive_names_are_exact() {
    let stable = GodotVersion::new("4.2.1", false).unwrap();
    assert_eq!(stable.archive_name("linux", "x86_64"), "Godot_v4.2.1-stable_linux.x86_64.zip");
    assert_eq!(stable.archive_name("windows", "x86"), "Godot_v4.2.1-stable_win32.exe.zip");
    assert_eq!(stable.archive_name("macos", "aarch64"), "Godot_v4.2.1-stable_macos.universal.zip");
    let mono = GodotVersion::new("4.2.1", true).unwrap();
    assert_eq!(mono.archive_name("linux", "arm"), "Godot_v4.2.1-stable_mono_linux.arm32.zip");
    let beta = GodotVersion::new("4.3.0-beta2", true).unwrap();
    assert_eq!(beta.archive_name("windows", "x86_64"), "Godot_v4.3.0-beta2_mono_win64.exe.zip");
    let beta = GodotVersion::new("4.3.0-beta2", false).unwrap();
    assert_eq!(beta.archive_name("plan9", "mips"), "Godot_v4.3.0-beta2_linux.x86_64.zip");
}

#[test]
fn stable_archives_mark_the_version_before_the_platform() {
    for (os, arch) in PLATFORMS.into_iter().chain([("freebsd", "x86_64"), ("", "")]) {
        for dotnet in [false, true] {
            let v = GodotVersion::new("3.5.3", dotnet).unwrap();
            let name = v.archive_name(os, arch);
            let suffix = GodotVersion::get_platform_suffix(os, arch);
            let mark = name.find("-stable_").unwrap();
            assert!(mark + "-stable_".len() <= name.len() - suffix.len() - ".zip".len());
            assert!(name.ends_with(&format!("{}.zip", suffix)));
            assert_eq!(name.contains("_mono_"), dotnet);
        }
    }
}

#[test]
fn executable_paths_are_exact() {
    let standard = GodotVersion::new("4.2.1", false).unwrap();
    let dotnet = GodotVersion::new("4.2.1", true).unwrap();
    let rc = GodotVersion::new("4.1-rc3", true).unwrap();
    assert_eq!(standard.get_executable_path("macos", "aarch64"), "Godot.app/Contents/MacOS/Godot");
    assert_eq!(dotnet.get_executable_path("macos", "x86_64"), "Godot_mono.app/Contents/MacOS/Godot");
    assert_eq!(standard.get_executable_path("windows", "x86_64"), "Godot_v4.2.1-stable_win64.exe");
    assert_eq!(standard.get_executable_path("windows", "x86"), "Godot_v4.2.1-stable_win64.exe");
    assert_eq!(
        dotnet.get_executable_path("windows", "x86_64"),
        "Godot_v4.2.1-stable_mono_win64/Godot_v4.2.1-stable_mono_win64.exe"
    );
    assert_eq!(standard.get_executable_path("linux", "x86_64"), "Godot_v4.2.1-stable_linux.x86_64");
    assert_eq!(standard.get_executable_path("linux", "arm"), "Godot_v4.2.1-stable_linux.arm32");
    assert_eq!(
        dotnet.get_executable_path("linux", "aarch64"),
        "Godot_v4.2.1-stable_mono_linux.arm64/Godot_v4.2.1-stable_mono_linux.arm64"
    );
    assert_eq!(
        rc.get_executable_path("linux", "x86"),
        "Godot_v4.1.0-rc3_mono_linux.x86_32/Godot_v4.1.0-rc3_mono_linux.x86_32"
    );
    assert_eq!(standard.get_executable_path("freebsd", "x86_64"), "Godot");
    assert_eq!(dotnet.get_executable_path("freebsd", "x86_64"), "Godot");
}

#[test]
fn invalid_versions_are_rejected() {
    for text in [
        "", " ", "4", "abc", "4.x", "4.2.1.0", "4..1", "4.", ".4", "04.2.1", "4.2.1-", "4.2.1+",
        "4.2.1-beta_1", "4.2.1-rc..1", "99999999999999999999.0.0", "4.2.1 beta", "-stable",
        "4.1-rc.3", "4.2-beta.01", "v4.2.1", "4.2.1-b\u{e9}ta", "4.\u{663}",
    ] {
        match GodotVersion::new(text, false) {
            Err(VersionError::InvalidVersionFormat) => {}
            Ok(v) => panic!("{:?} was read as {:?}", text, v),
        }
    }
}

#[test]
fn numeric_versions_are_stable() {
    for (text, major, minor, patch) in [
        ("0.0.0", 0, 0, 0),
        ("4.2.1", 4, 2, 1),
        ("10.20.30", 10, 20, 30),
        ("18446744073709551615.0.7", u64::MAX, 0, 7),
    ] {
        for dotnet in [false, true] {
            let v = GodotVersion::new(text, dotnet).unwrap();
            assert!(!v.is_prerelease());
            assert_eq!(v.version.major, major);
            assert_eq!(v.version.minor, minor);
            assert_eq!(v.version.patch, patch);
            assert_eq!(v.version.to_text(), text);
            assert_eq!(v.is_dotnet, dotnet);
        }
    }
}

#[test]
fn other_prerelease_tags_and_build_metadata_are_kept() {
    let dev = GodotVersion::new("4.3-dev5", false).unwrap();
    assert_eq!(dev.version.pre, "dev5");
    assert_eq!(dev.godot_version_string(), "4.3.0-dev5");
    assert!(dev.is_prerelease());
    assert_eq!(dev.archive_name("linux", "x86_64"), "Godot_v4.3.0-dev5_linux.x86_64.zip");

    let built = GodotVersion::new("4.2.1+custom.build", false).unwrap();
    assert_eq!(built.version.pre, "");
    assert_eq!(built.version.build, "custom.build");
    assert!(!built.is_prerelease());
    assert_eq!(built.godot_version_string(), "4.2.1+custom.build");
    assert_eq!(built.archive_name("linux", "x86_64"), "Godot_v4.2.1+custom.build-stable_linux.x86_64.zip");

    let both = GodotVersion::new(" 1.2.3-alpha.7+x-beta.1 ", true).unwrap();
    assert_eq!(both.version.pre, "alpha.7");
    assert_eq!(both.version.build, "x-beta.1");
    assert_eq!(both.godot_version_string(), "1.2.3-alpha7+x-beta1");

    let twice = GodotVersion::new("4.2.1-stable-stable", false).unwrap();
    assert_eq!(twice.version.pre, "stable");
    assert_eq!(twice.godot_version_string(), "4.2.1-stable");
}

#[test]
fn strict_parser_keeps_the_text() {
    for text in ["1.2.3", "0.0.0-0", "4.3.0-beta.2", "1.0.0-rc.1+build.5", "7.8.9+001", "1.0.0-x-y.z--"] {
        let v = Version::parse(text).unwrap();
        assert_eq!(v.to_text(), text);
        let reference = semver::Version::parse(text).unwrap();
        assert_eq!(v.major, reference.major);
        assert_eq!(v.minor, reference.minor);
        assert_eq!(v.patch, reference.patch);
        assert_eq!(v.pre, reference.pre.as_str());
        assert_eq!(v.build, reference.build.as_str());
        assert_eq!(v.to_text(), reference.to_string());
        assert_eq!(v.is_prerelease(), !reference.pre.is_empty());
    }
    for text in ["", "1", "1.2", "1.2.3.4", "01.2.3", "1.2.3-", "1.2.3+", "1.2.3-01", "a.b.c", " 1.2.3"] {
        assert_eq!(Version::parse(text).unwrap_err(), VersionError::InvalidVersionFormat);
        assert!(semver::Version::parse(text).is_err());
    }
}

#[test]
fn outcome_of_the_strict_parser_is_mapped() {
    let ok = Version::from_outcome(Ok(Version {
        major: 1,
        minor: 2,
        patch: 3,
        pre: String::from("rc.1"),
        build: String::new(),
    }))
    .unwrap();
    assert_eq!((ok.major, ok.minor, ok.patch), (1, 2, 3));
    assert_eq!(ok.pre, "rc.1");
    let error = semver::Version::parse("1.2").unwrap_err();
    assert_eq!(Version::from_outcome(Err(error)).unwrap_err(), VersionError::InvalidVersionFormat);
}

#[test]
fn equality_takes_every_part_into_account() {
    let a = GodotVersion::new("4.2.1", false).unwrap();
    assert!(a == GodotVersion::new("4.2.1-stable", false).unwrap());
    assert!(a == GodotVersion::new(" 4.2.1 ", false).unwrap());
    assert!(a != GodotVersion::new("4.2.1", true).unwrap());
    assert!(a != GodotVersion::new("4.2.2", false).unwrap());
    assert!(a != GodotVersion::new("4.3.1", false).unwrap());
    assert!(a != GodotVersion::new("5.2.1", false).unwrap());
    assert!(a != GodotVersion::new("4.2.1-rc1", false).unwrap());
    assert!(a != GodotVersion::new("4.2.1+build", false).unwrap());
    assert!(a.clone() == a);
    let beta = GodotVersion::new("4.3-beta2", true).unwrap();
    assert!(beta == GodotVersion::new("4.3.0-beta.2", true).unwrap());
    assert!(beta != GodotVersion::new("4.3.0-beta.3", true).unwrap());
    assert!(beta.version == Version::parse("4.3.0-beta.2").unwrap());
    assert!(beta.version != Version::parse("4.3.0").unwrap());
}

#[test]
fn parsing_a_bare_string_gives_the_standard_build() {
    let v: GodotVersion = "4.3-beta2".parse().unwrap();
    assert!(!v.is_dotnet);
    assert!(v == GodotVersion::new("4.3-beta2", false).unwrap());
    assert_eq!(v.to_string(), "4.3.0-beta2");
    let error = "four".parse::<GodotVersion>().unwrap_err();
    assert_eq!(error, VersionError::InvalidVersionFormat);
}

#[test]
fn upstream_text_is_the_strict_text_without_the_dots_behind_the_tags() {
    let pieces = ["1", "0", ".", "-", "+", "beta", "rc", "alpha", "-beta.", "-rc.", "-alpha.", "x"];
    let mut texts = vec![String::from("4.2.1")];
    let mut last = texts.clone();
    for _ in 0..4 {
        let mut next = Vec::new();
        for text in &last {
            for piece in pieces {
                next.push(format!("{}{}", text, piece));
            }
        }
        texts.extend(next.iter().cloned());
        last = next;
    }
    let mut read = 0;
    for text in texts {
        let normalized = GodotVersion::normalize_version_string(&text);
        match (GodotVersion::new(&text, true), semver::Version::parse(&normalized)) {
            (Ok(release), Ok(reference)) => {
                let expected = reference
                    .to_string()
                    .replace("-beta.", "-beta")
                    .replace("-rc.", "-rc")
                    .replace("-alpha.", "-alpha");
                assert_eq!(release.godot_version_string(), expected, "{:?}", text);
                assert_eq!(release.is_prerelease(), !reference.pre.is_empty());
                assert_eq!(release.to_string(), format!("{} (.NET)", expected));
                assert_eq!(release.installation_name(), format!("godot-{}-dotnet", expected));
                read += 1;
            }
            (Err(VersionError::InvalidVersionFormat), Err(_)) => {}
            (ours, _) => panic!("{:?} read as {:?}", text, ours),
        }
    }
    assert!(read > 1000);
}
