//! A Godot release: a strict version and the build variant, with the names derived from them.

use vstd::prelude::*;
use vstd::std_specs::cmp::PartialEqSpecImpl;
use vstd::string::StringExecFns;
use crate::normalize::normalize;
use crate::platform::platform_suffix;
use crate::text::{chars_of, replace_all, replaced, same_text, string_of};
use crate::version::{reads_as, reads_as_nothing, Version, VersionError, VersionView};

verus! {

/// A release of the engine: its version, and whether it is the .NET build.
#[derive(Debug, Clone, Hash)]
pub struct GodotVersion {
    pub version: Version,
    pub is_dotnet: bool,
}

impl PartialEq for GodotVersion {
    /// Two releases are equal where their versions are and both are the same build.
    fn eq(&self, other: &GodotVersion) -> (r: bool) {
        self.version == other.version && self.is_dotnet == other.is_dotnet
    }
}

impl PartialEqSpecImpl for GodotVersion {
    open spec fn obeys_eq_spec() -> bool {
        true
    }

    open spec fn eq_spec(&self, other: &GodotVersion) -> bool {
        self.version@ == other.version@ && self.is_dotnet == other.is_dotnet
    }
}

impl Eq for GodotVersion {

}

impl std::str::FromStr for GodotVersion {
    type Err = VersionError;

    /// Reads a standard build: `s.parse()` is `GodotVersion::new(s, false)`.
    fn from_str(s: &str) -> (r: Result<GodotVersion, VersionError>)
        ensures
            is_release_of(r, s@, false),
            r matches Ok(g) ==> g.version@.is_strict(),
    {
        GodotVersion::new(s, false)
    }
}

/// Whether `r` is what building a release from `text` and `is_dotnet` gives: the one version
/// that the normalized text writes in the strict grammar, with the variant as given, or the
/// error where the normalized text writes no version.
pub open spec fn is_release_of(
    r: Result<GodotVersion, VersionError>,
    text: Seq<char>,
    is_dotnet: bool,
) -> bool {
    match r {
        Ok(g) => g.is_dotnet == is_dotnet && reads_as(normalize(text), g.version@),
        Err(e) => e == VersionError::InvalidVersionFormat && reads_as_nothing(normalize(text)),
    }
}

/// The version as upstream writes it: the strict text with the dot behind `-beta`, `-rc` and
/// `-alpha` taken out, so that `4.3.0-beta.2` reads `4.3.0-beta2`.
pub open spec fn upstream_text(v: VersionView) -> Seq<char> {
    replace_all(
        replace_all(replace_all(v.text(), "-beta."@, "-beta"@), "-rc."@, "-rc"@),
        "-alpha."@,
        "-alpha"@,
    )
}

/// The version as it stands in the names of release files: a stable version is marked
/// `-stable`, a prerelease is written as upstream writes it.
pub open spec fn release_text(v: VersionView) -> Seq<char> {
    if v.pre.len() == 0 {
        v.text() + "-stable"@
    } else {
        upstream_text(v)
    }
}

/// `_mono` for the .NET build, nothing for the standard one.
pub open spec fn mono_mark(is_dotnet: bool) -> Seq<char> {
    if is_dotnet {
        "_mono"@
    } else {
        Seq::empty()
    }
}

/// The name that a release file or directory starts with: `Godot_v`, the version, `_mono`
/// for the .NET build, an underscore and the platform.
pub open spec fn release_stem(v: VersionView, is_dotnet: bool, platform: Seq<char>) -> Seq<char> {
    "Godot_v"@ + release_text(v) + mono_mark(is_dotnet) + "_"@ + platform
}

/// The label shown to people: the upstream text, marked ` (.NET)` for the .NET build.
pub open spec fn label(v: VersionView, is_dotnet: bool) -> Seq<char> {
    if is_dotnet {
        upstream_text(v) + " (.NET)"@
    } else {
        upstream_text(v)
    }
}

/// The name of the directory that a release is installed in.
pub open spec fn installation_text(v: VersionView, is_dotnet: bool) -> Seq<char> {
    if is_dotnet {
        "godot-"@ + upstream_text(v) + "-dotnet"@
    } else {
        "godot-"@ + upstream_text(v)
    }
}

/// The name of the archive that upstream publishes for a release and a platform.
pub open spec fn archive_text(v: VersionView, is_dotnet: bool, os: Seq<char>, arch: Seq<char>) -> Seq<
    char,
> {
    release_stem(v, is_dotnet, platform_suffix(os, arch)) + ".zip"@
}

/// Where the executable lies inside an unpacked archive.
///
/// On macOS it is inside the application bundle. On Windows the build is always named for
/// 64 bits; the standard build unpacks to the executable itself, the .NET build to a
/// directory of the same name around it. Linux does as Windows does, with the platform
/// token in place of `win64` and no `.exe`. Elsewhere only the bare name is known.
pub open spec fn executable_text(v: VersionView, is_dotnet: bool, os: Seq<char>, arch: Seq<char>) -> Seq<
    char,
> {
    if os == "macos"@ {
        if is_dotnet {
            "Godot_mono.app/Contents/MacOS/Godot"@
        } else {
            "Godot.app/Contents/MacOS/Godot"@
        }
    } else if os == "windows"@ {
        let stem = release_stem(v, is_dotnet, "win64"@);
        if is_dotnet {
            stem + "/"@ + stem + ".exe"@
        } else {
            stem + ".exe"@
        }
    } else if os == "linux"@ {
        let stem = release_stem(v, is_dotnet, platform_suffix(os, arch));
        if is_dotnet {
            stem + "/"@ + stem
        } else {
            stem
        }
    } else {
        "Godot"@
    }
}

impl GodotVersion {
    /// Builds a release from an upstream version string and the build variant.
    ///
    /// The string is normalized and then read in the strict grammar. The call succeeds
    /// exactly where the normalized string writes a version, and returns that version.
    pub fn new(version_str: &str, is_dotnet: bool) -> (r: Result<GodotVersion, VersionError>)
        ensures
            is_release_of(r, version_str@, is_dotnet),
            r matches Ok(g) ==> g.version@.is_strict(),
    {
        let normalized = GodotVersion::normalize_version_string(version_str);
        match Version::parse(normalized.as_str()) {
            Ok(version) => Ok(GodotVersion { version, is_dotnet }),
            Err(e) => Err(e),
        }
    }

    /// Whether the release is a prerelease.
    pub fn is_prerelease(&self) -> (r: bool)
        ensures
            r == (self.version@.pre.len() > 0),
    {
        self.version.is_prerelease()
    }

    /// The version as upstream writes it, such as `4.3.0-beta2`.
    pub fn godot_version_string(&self) -> (out: String)
        ensures
            out@ == upstream_text(self.version@),
    {
        let text = chars_of(self.version.to_text().as_str());
        let beta = replaced(&text, &chars_of("-beta."), &chars_of("-beta"));
        let rc = replaced(&beta, &chars_of("-rc."), &chars_of("-rc"));
        string_of(&replaced(&rc, &chars_of("-alpha."), &chars_of("-alpha")))
    }

    /// The label shown to people, such as `4.2.1 (.NET)`.
    pub fn to_string(&self) -> (out: String)
        ensures
            out@ == label(self.version@, self.is_dotnet),
    {
        let mut out = self.godot_version_string();
        if self.is_dotnet {
            out.append(" (.NET)");
        }
        out
    }

    /// The name of the directory that the release is installed in, such as
    /// `godot-4.2.1-dotnet`.
    pub fn installation_name(&self) -> (out: String)
        ensures
            out@ == installation_text(self.version@, self.is_dotnet),
    {
        let mut out = "godot-".to_owned();
        out.append(self.godot_version_string().as_str());
        if self.is_dotnet {
            out.append("-dotnet");
        }
        out
    }

    /// The version as it stands in the names of release files.
    fn release_part(&self) -> (out: String)
        ensures
            out@ == release_text(self.version@),
    {
        if self.version.is_prerelease() {
            self.godot_version_string()
        } else {
            let mut out = self.version.to_text();
            out.append("-stable");
            out
        }
    }

    /// The start of a release file's name for the given platform token.
    fn release_stem(&self, platform: &str) -> (out: String)
        ensures
            out@ == release_stem(self.version@, self.is_dotnet, platform@),
    {
        let mut out = "Godot_v".to_owned();
        out.append(self.release_part().as_str());
        if self.is_dotnet {
            out.append("_mono");
        }
        assert(out@ =~= "Godot_v"@ + release_text(self.version@) + mono_mark(self.is_dotnet));
        out.append("_");
        out.append(platform);
        out
    }

    /// The name of the archive that upstream publishes for the release, on the given
    /// operating system and architecture.
    pub fn archive_name(&self, os: &str, arch: &str) -> (out: String)
        ensures
            out@ == archive_text(self.version@, self.is_dotnet, os@, arch@),
    {
        let mut out = self.release_stem(GodotVersion::get_platform_suffix(os, arch));
        out.append(".zip");
        out
    }

    /// Where the executable lies inside the unpacked archive, on the given operating system
    /// and architecture.
    pub fn get_executable_path(&self, os: &str, arch: &str) -> (out: String)
        ensures
            out@ == executable_text(self.version@, self.is_dotnet, os@, arch@),
    {
        if same_text(os, "macos") {
            if self.is_dotnet {
                "Godot_mono.app/Contents/MacOS/Godot".to_owned()
            } else {
                "Godot.app/Contents/MacOS/Godot".to_owned()
            }
        } else if same_text(os, "windows") {
            let stem = self.release_stem("win64");
            let mut out = stem.clone();
            if self.is_dotnet {
                out.append("/");
                out.append(stem.as_str());
            }
            out.append(".exe");
            out
        } else if same_text(os, "linux") {
            let stem = self.release_stem(GodotVersion::get_platform_suffix(os, arch));
            let mut out = stem.clone();
            if self.is_dotnet {
                out.append("/");
                out.append(stem.as_str());
            }
            out
        } else {
            "Godot".to_owned()
        }
    }
}

} // verus!
