//! What holds of the names that are derived from a release.

use vstd::prelude::*;
use crate::godot::{
    archive_text, executable_text, mono_mark, release_stem, release_text, upstream_text,
};
use crate::normal_forms::{
    is_known_tag, lemma_core_shape, lemma_tag_absent, lemma_tag_present, tagged_pre,
    tagged_upstream,
};
use crate::platform::platform_suffix;
use crate::text::{
    contains, decimal, ends_with, is_digit, lemma_decimal_digits, lemma_find, lemma_mismatch,
    lemma_replace_absent, lemma_replace_at, occurs_at, replace_all,
};
use crate::version::{core_text, VersionView};

verus! {

/// Upstream writes a stable version without build metadata as its three numbers joined by
/// dots.
pub proof fn lemma_upstream_text_stable(major: nat, minor: nat, patch: nat)
    ensures
        upstream_text(VersionView::stable(major, minor, patch)) == core_text(major, minor, patch),
{
    reveal_strlit("-beta.");
    reveal_strlit("-rc.");
    reveal_strlit("-alpha.");
    let s = core_text(major, minor, patch);
    assert(VersionView::stable(major, minor, patch).text() =~= s);
    lemma_core_shape(major, minor, patch);
    lemma_tag_absent(s, "-beta."@, -1);
    lemma_replace_absent(s, "-beta."@, "-beta"@);
    lemma_tag_absent(s, "-rc."@, -1);
    lemma_replace_absent(s, "-rc."@, "-rc"@);
    lemma_tag_absent(s, "-alpha."@, -1);
    lemma_replace_absent(s, "-alpha."@, "-alpha"@);
}

/// One step of the renderer on a version with a known tag: the dot behind the tag named by
/// `dashed` goes, and a text with another tag stays as it is.
proof fn lemma_undot(
    core: Seq<char>,
    own: Seq<char>,
    digits: Seq<char>,
    dotted: bool,
    dashed: Seq<char>,
)
    requires
        forall|i: int| 0 <= i < core.len() ==> core[i] != '-',
        forall|i: int| 0 <= i < digits.len() ==> is_digit(#[trigger] digits[i]),
        own.len() >= 2 && own[0] == '-' && forall|i: int| 1 <= i < own.len() ==> own[i] != '-',
        dashed.len() >= 2 && dashed[0] == '-',
        dashed == own || dashed[1] != own[1],
        dotted ==> digits.len() > 0,
    ensures
        replace_all(
            core + own + (if dotted {
                "."@
            } else {
                Seq::<char>::empty()
            }) + digits,
            dashed + "."@,
            dashed,
        ) == core + own + (if dotted && dashed != own {
            "."@
        } else {
            Seq::<char>::empty()
        }) + digits,
{
    reveal_strlit(".");
    let dot = if dotted {
        "."@
    } else {
        Seq::<char>::empty()
    };
    let s = core + own + dot + digits;
    let at = core.len() as int;
    let pat = dashed + "."@;
    assert forall|i: int| 0 <= i < s.len() && i != at implies s[i] != '-' by {
        if i < at {
            assert(s[i] == core[i]);
        } else if i < at + own.len() {
            assert(s[i] == own[i - at]);
        } else if i < at + own.len() + dot.len() {
            assert(s[i] == '.');
        } else {
            assert(s[i] == digits[i - at - own.len() - dot.len()]);
        }
    }
    assert(s[at + 1] == own[1]);
    if dashed == own && dotted {
        assert(s.subrange(at, at + pat.len()) =~= pat);
        lemma_tag_present(s, pat, at);
        lemma_find(s, pat);
        lemma_replace_at(s, pat, dashed, at);
        assert(s.skip(at + pat.len()) =~= digits);
        lemma_tag_absent(digits, pat, -1);
        lemma_replace_absent(digits, pat, dashed);
        assert(s.take(at) + dashed + digits =~= core + own + Seq::<char>::empty() + digits);
    } else {
        if dashed == own {
            assert(at + own.len() < s.len() ==> s[at + own.len()] == digits[0]);
            lemma_mismatch(s, pat, at, own.len() as int);
        } else {
            lemma_mismatch(s, pat, at, 1);
        }
        lemma_tag_absent(s, pat, at);
        lemma_replace_absent(s, pat, dashed);
    }
}

/// Upstream writes a version with a known tag as its three numbers joined by dots, a dash,
/// the tag and the counter, with nothing between the tag and the counter: `4.3.0-beta2`.
pub proof fn lemma_upstream_text_tagged(
    major: nat,
    minor: nat,
    patch: nat,
    tag: Seq<char>,
    counter: Option<nat>,
)
    requires
        is_known_tag(tag),
    ensures
        upstream_text(
            VersionView {
                major,
                minor,
                patch,
                pre: tagged_pre(tag, counter),
                build: Seq::empty(),
            },
        ) == core_text(major, minor, patch) + "-"@ + tagged_upstream(tag, counter),
{
    reveal_strlit("-");
    reveal_strlit(".");
    reveal_strlit("alpha");
    reveal_strlit("beta");
    reveal_strlit("rc");
    reveal_strlit("-beta");
    reveal_strlit("-rc");
    reveal_strlit("-alpha");
    reveal_strlit("-beta.");
    reveal_strlit("-rc.");
    reveal_strlit("-alpha.");
    let v = VersionView { major, minor, patch, pre: tagged_pre(tag, counter), build: Seq::empty() };
    let core = core_text(major, minor, patch);
    let own = "-"@ + tag;
    let dotted = counter is Some;
    let digits = match counter {
        Some(n) => decimal(n),
        None => Seq::<char>::empty(),
    };
    let dot = if dotted {
        "."@
    } else {
        Seq::<char>::empty()
    };
    let none = Seq::<char>::empty();
    lemma_core_shape(major, minor, patch);
    if counter is Some {
        lemma_decimal_digits(counter->0);
    }
    assert(v.text() =~= core + own + dot + digits);
    assert("-beta."@ =~= "-beta"@ + "."@);
    assert("-rc."@ =~= "-rc"@ + "."@);
    assert("-alpha."@ =~= "-alpha"@ + "."@);
    assert(own =~= "-beta"@ || own =~= "-rc"@ || own =~= "-alpha"@);
    lemma_undot(core, own, digits, dotted, "-beta"@);
    let after_beta = replace_all(v.text(), "-beta."@, "-beta"@);
    let beta_dotted = dotted && own != "-beta"@;
    lemma_undot(core, own, digits, beta_dotted, "-rc"@);
    let rc_dotted = beta_dotted && own != "-rc"@;
    lemma_undot(core, own, digits, rc_dotted, "-alpha"@);
    assert(core + own + none + digits =~= core + "-"@ + tagged_upstream(tag, counter));
}

/// Every archive name ends with the platform token and `.zip`.
pub proof fn lemma_archive_name_ends_in_zip(
    v: VersionView,
    is_dotnet: bool,
    os: Seq<char>,
    arch: Seq<char>,
)
    ensures
        ends_with(archive_text(v, is_dotnet, os, arch), ".zip"@),
        ends_with(archive_text(v, is_dotnet, os, arch), platform_suffix(os, arch) + ".zip"@),
{
    let name = archive_text(v, is_dotnet, os, arch);
    let end = platform_suffix(os, arch) + ".zip"@;
    assert(name.subrange(name.len() - ".zip"@.len(), name.len() as int) =~= ".zip"@);
    assert(name.subrange(name.len() - end.len(), name.len() as int) =~= end);
}

/// The archive name of a stable release holds `-stable_`, and holds it before the platform
/// token.
pub proof fn lemma_stable_archive_name(
    v: VersionView,
    is_dotnet: bool,
    os: Seq<char>,
    arch: Seq<char>,
)
    requires
        v.pre.len() == 0,
    ensures
        contains(archive_text(v, is_dotnet, os, arch), "-stable_"@),
        exists|i: int|
            occurs_at(archive_text(v, is_dotnet, os, arch), "-stable_"@, i) && i + "-stable_"@.len()
                + platform_suffix(os, arch).len() + ".zip"@.len() <= archive_text(
                v,
                is_dotnet,
                os,
                arch,
            ).len(),
{
    reveal_strlit("-stable_");
    reveal_strlit("-stable");
    reveal_strlit("_mono");
    reveal_strlit("_");
    let name = archive_text(v, is_dotnet, os, arch);
    let at = ("Godot_v"@ + v.text()).len() as int;
    let rest = mono_mark(is_dotnet) + "_"@ + platform_suffix(os, arch) + ".zip"@;
    assert(name =~= "Godot_v"@ + v.text() + "-stable"@ + rest);
    assert(rest[0] == '_');
    assert(name.subrange(at, at + 8) =~= "-stable_"@);
    assert(occurs_at(name, "-stable_"@, at));
}

/// The archive name of a .NET build holds `_mono_`.
pub proof fn lemma_dotnet_archive_name(v: VersionView, os: Seq<char>, arch: Seq<char>)
    ensures
        contains(archive_text(v, true, os, arch), "_mono_"@),
{
    reveal_strlit("_mono_");
    reveal_strlit("_mono");
    reveal_strlit("_");
    let name = archive_text(v, true, os, arch);
    let at = ("Godot_v"@ + release_text(v)).len() as int;
    assert(name =~= "Godot_v"@ + release_text(v) + "_mono"@ + "_"@ + (platform_suffix(os, arch)
        + ".zip"@));
    assert(name.subrange(at, at + 6) =~= "_mono_"@);
    assert(occurs_at(name, "_mono_"@, at));
}

/// On macOS, Windows and Linux the standard build and the .NET build of one version have
/// their executables at different paths.
pub proof fn lemma_variants_have_distinct_executables(
    v: VersionView,
    os: Seq<char>,
    arch: Seq<char>,
)
    requires
        os == "macos"@ || os == "windows"@ || os == "linux"@,
    ensures
        executable_text(v, false, os, arch) != executable_text(v, true, os, arch),
{
    reveal_strlit("Godot_mono.app/Contents/MacOS/Godot");
    reveal_strlit("Godot.app/Contents/MacOS/Godot");
    reveal_strlit("_mono");
    reveal_strlit("/");
    let standard = executable_text(v, false, os, arch);
    let dotnet = executable_text(v, true, os, arch);
    if os == "macos"@ {
        assert(standard.len() != dotnet.len());
    } else if os == "windows"@ {
        assert(release_stem(v, true, "win64"@).len() == release_stem(v, false, "win64"@).len()
            + 5);
        assert(standard.len() < dotnet.len());
    } else {
        let platform = platform_suffix(os, arch);
        assert(release_stem(v, true, platform).len() == release_stem(v, false, platform).len()
            + 5);
        assert(standard.len() < dotnet.len());
    }
}

} // verus!
