//! The platform token that upstream puts into the names of its release files.

use vstd::prelude::*;
use crate::godot::GodotVersion;
use crate::text::same_text;

verus! {

/// Whether `token` is one of the seven platform tokens that upstream uses.
pub open spec fn is_platform_token(token: Seq<char>) -> bool {
    ||| token == "win64.exe"@
    ||| token == "win32.exe"@
    ||| token == "macos.universal"@
    ||| token == "linux.x86_64"@
    ||| token == "linux.x86_32"@
    ||| token == "linux.arm32"@
    ||| token == "linux.arm64"@
}

/// The token for an operating system and a processor architecture, both named as the Rust
/// toolchain names them (`std::env::consts::OS` and `ARCH`).
///
/// Windows is 64-bit unless the architecture is `x86`; macOS has one universal build; Linux
/// knows four architectures and is taken for `x86_64` otherwise, and so is every operating
/// system that is none of the three.
pub open spec fn platform_suffix(os: Seq<char>, arch: Seq<char>) -> Seq<char> {
    if os == "windows"@ {
        if arch == "x86"@ {
            "win32.exe"@
        } else {
            "win64.exe"@
        }
    } else if os == "macos"@ {
        "macos.universal"@
    } else if os == "linux"@ {
        if arch == "x86"@ {
            "linux.x86_32"@
        } else if arch == "arm"@ {
            "linux.arm32"@
        } else if arch == "aarch64"@ {
            "linux.arm64"@
        } else {
            "linux.x86_64"@
        }
    } else {
        "linux.x86_64"@
    }
}

impl GodotVersion {
    /// The platform token for the given operating system and architecture; always one of
    /// the seven that upstream uses.
    pub fn get_platform_suffix(os: &str, arch: &str) -> (token: &'static str)
        ensures
            token@ == platform_suffix(os@, arch@),
            is_platform_token(token@),
            token@.len() > 0,
    {
        proof {
            reveal_strlit("win64.exe");
            reveal_strlit("win32.exe");
            reveal_strlit("macos.universal");
            reveal_strlit("linux.x86_64");
            reveal_strlit("linux.x86_32");
            reveal_strlit("linux.arm32");
            reveal_strlit("linux.arm64");
        }
        if same_text(os, "windows") {
            if same_text(arch, "x86") {
                "win32.exe"
            } else {
                "win64.exe"
            }
        } else if same_text(os, "macos") {
            "macos.universal"
        } else if same_text(os, "linux") {
            if same_text(arch, "x86") {
                "linux.x86_32"
            } else if same_text(arch, "arm") {
                "linux.arm32"
            } else if same_text(arch, "aarch64") {
                "linux.arm64"
            } else {
                "linux.x86_64"
            }
        } else {
            "linux.x86_64"
        }
    }
}

} // verus!
