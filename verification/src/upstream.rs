//! What building a release makes of the forms in which upstream writes its versions.
//!
//! Each law takes the outcome `r` of building a release from a text of one form, as
//! [`is_release_of`] describes it, and says which release it is.

use vstd::prelude::*;
use crate::godot::{is_release_of, GodotVersion};
use crate::normal_forms::{
    is_known_tag, lemma_normalize_compact, lemma_normalize_core, lemma_normalize_short,
    lemma_normalize_short_tagged, lemma_normalize_stable, lemma_normalize_tagged,
    lemma_tagged_identifiers, lemma_writes_tagged, tagged_pre, tagged_upstream,
};
use crate::normalize::normalize;
use crate::text::decimal;
use crate::version::{core_text, lemma_writes_stable, writes, VersionError, VersionView};

verus! {

/// The version with the given numbers and a known tag, with or without a counter.
pub open spec fn tagged_version(
    major: nat,
    minor: nat,
    patch: nat,
    tag: Seq<char>,
    counter: Option<nat>,
) -> VersionView {
    VersionView { major, minor, patch, pre: tagged_pre(tag, counter), build: Seq::empty() }
}

/// Where the normalized text writes a version, building a release succeeds and gives that
/// version, with the variant that was asked for.
pub proof fn lemma_release_of(
    r: Result<GodotVersion, VersionError>,
    text: Seq<char>,
    is_dotnet: bool,
    w: VersionView,
)
    requires
        is_release_of(r, text, is_dotnet),
        writes(normalize(text), w),
    ensures
        r is Ok,
        r->Ok_0.version@ == w,
        r->Ok_0.is_dotnet == is_dotnet,
{
}

/// Three numbers joined by dots give the stable version with those numbers.
pub proof fn lemma_release_of_numbers(
    r: Result<GodotVersion, VersionError>,
    major: u64,
    minor: u64,
    patch: u64,
    is_dotnet: bool,
)
    requires
        is_release_of(r, core_text(major as nat, minor as nat, patch as nat), is_dotnet),
    ensures
        r is Ok,
        r->Ok_0.version@ == VersionView::stable(major as nat, minor as nat, patch as nat),
        r->Ok_0.version@.pre.len() == 0,
        r->Ok_0.is_dotnet == is_dotnet,
{
    lemma_normalize_core(major as nat, minor as nat, patch as nat);
    lemma_writes_stable(major, minor, patch);
}

/// Three numbers with `-stable` behind them give the same release as the numbers alone.
pub proof fn lemma_release_of_stable(
    r: Result<GodotVersion, VersionError>,
    major: u64,
    minor: u64,
    patch: u64,
    is_dotnet: bool,
)
    requires
        is_release_of(
            r,
            core_text(major as nat, minor as nat, patch as nat) + "-stable"@,
            is_dotnet,
        ),
    ensures
        r is Ok,
        r->Ok_0.version@ == VersionView::stable(major as nat, minor as nat, patch as nat),
        r->Ok_0.is_dotnet == is_dotnet,
{
    lemma_normalize_stable(major as nat, minor as nat, patch as nat);
    lemma_writes_stable(major, minor, patch);
}

/// Two numbers joined by a dot give the stable version with a patch number of zero.
pub proof fn lemma_release_of_short(
    r: Result<GodotVersion, VersionError>,
    major: u64,
    minor: u64,
    is_dotnet: bool,
)
    requires
        is_release_of(r, decimal(major as nat) + "."@ + decimal(minor as nat), is_dotnet),
    ensures
        r is Ok,
        r->Ok_0.version@ == VersionView::stable(major as nat, minor as nat, 0),
        r->Ok_0.is_dotnet == is_dotnet,
{
    lemma_normalize_short(major as nat, minor as nat);
    lemma_writes_stable(major, minor, 0);
}

/// A prerelease in the strict form, such as `4.1.0-rc.1`, gives the version with that tag
/// and counter.
pub proof fn lemma_release_of_tagged(
    r: Result<GodotVersion, VersionError>,
    major: u64,
    minor: u64,
    patch: u64,
    tag: Seq<char>,
    counter: Option<nat>,
    is_dotnet: bool,
)
    requires
        is_known_tag(tag),
        counter matches Some(n) ==> n <= u64::MAX,
        is_release_of(
            r,
            core_text(major as nat, minor as nat, patch as nat) + "-"@ + tagged_pre(tag, counter),
            is_dotnet,
        ),
    ensures
        r is Ok,
        r->Ok_0.version@ == tagged_version(major as nat, minor as nat, patch as nat, tag, counter),
        r->Ok_0.version@.pre.len() > 0,
        r->Ok_0.is_dotnet == is_dotnet,
{
    lemma_normalize_tagged(major as nat, minor as nat, patch as nat, tag, counter);
    lemma_writes_tagged(major, minor, patch, tag, counter);
    lemma_tagged_identifiers(tag, counter);
}

/// A prerelease as upstream writes it, such as `4.3.0-beta2`, gives the version with that
/// tag and counter.
pub proof fn lemma_release_of_compact(
    r: Result<GodotVersion, VersionError>,
    major: u64,
    minor: u64,
    patch: u64,
    tag: Seq<char>,
    counter: u32,
    is_dotnet: bool,
)
    requires
        is_known_tag(tag),
        is_release_of(
            r,
            core_text(major as nat, minor as nat, patch as nat) + "-"@ + tag + decimal(
                counter as nat,
            ),
            is_dotnet,
        ),
    ensures
        r is Ok,
        r->Ok_0.version@ == tagged_version(
            major as nat,
            minor as nat,
            patch as nat,
            tag,
            Some(counter as nat),
        ),
        r->Ok_0.version@.pre.len() > 0,
        r->Ok_0.is_dotnet == is_dotnet,
{
    lemma_normalize_compact(major as nat, minor as nat, patch as nat, tag, counter as nat);
    lemma_writes_tagged(major, minor, patch, tag, Some(counter as nat));
}

/// A prerelease of two numbers as upstream writes it, such as `4.5-beta1`, gives the
/// version with a patch number of zero and that tag and counter.
pub proof fn lemma_release_of_short_tagged(
    r: Result<GodotVersion, VersionError>,
    major: u64,
    minor: u64,
    tag: Seq<char>,
    counter: Option<u32>,
    is_dotnet: bool,
)
    requires
        is_known_tag(tag),
        is_release_of(
            r,
            decimal(major as nat) + "."@ + decimal(minor as nat) + "-"@ + tagged_upstream(
                tag,
                counter_number(counter),
            ),
            is_dotnet,
        ),
    ensures
        r is Ok,
        r->Ok_0.version@ == tagged_version(
            major as nat,
            minor as nat,
            0,
            tag,
            counter_number(counter),
        ),
        r->Ok_0.version@.pre.len() > 0,
        r->Ok_0.is_dotnet == is_dotnet,
{
    lemma_normalize_short_tagged(major as nat, minor as nat, tag, counter_number(counter));
    lemma_writes_tagged(major, minor, 0, tag, counter_number(counter));
    lemma_tagged_identifiers(tag, counter_number(counter));
}

/// A counter as a number without bounds.
pub open spec fn counter_number(counter: Option<u32>) -> Option<nat> {
    match counter {
        Some(n) => Some(n as nat),
        None => None,
    }
}

} // verus!
