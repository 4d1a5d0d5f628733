//! Version precedence: which of two versions is the later one.
//!
//! The numbers decide first. Between versions with the same numbers a stable version is
//! later than every prerelease, and two prereleases go by their identifiers. Build metadata
//! and the build variant play no part.

use std::cmp::Ordering;
use vstd::prelude::*;
use vstd::string::StrSliceExecFns;
use crate::godot::GodotVersion;
use crate::version::{is_identifiers, Version, VersionView, MAX_TEXT_LEN};

verus! {

/// An order as a number: -1 for less, 0 for equal, 1 for greater.
pub open spec fn order_number(order: Ordering) -> int {
    match order {
        Ordering::Less => -1,
        Ordering::Equal => 0,
        Ordering::Greater => 1,
    }
}

/// How `semver::Prerelease` orders two texts that it accepts, as a number: -1, 0 or 1.
pub uninterp spec fn semver_prerelease_order(left: Seq<char>, right: Seq<char>) -> int;

/// How the three numbers of two versions compare, the major number first: -1, 0 or 1.
pub open spec fn core_order(left: VersionView, right: VersionView) -> int {
    if left.major != right.major {
        if left.major < right.major {
            -1
        } else {
            1
        }
    } else if left.minor != right.minor {
        if left.minor < right.minor {
            -1
        } else {
            1
        }
    } else if left.patch != right.patch {
        if left.patch < right.patch {
            -1
        } else {
            1
        }
    } else {
        0
    }
}

/// The precedence of `left` against `right`: -1, 0 or 1.
pub open spec fn precedence(left: VersionView, right: VersionView) -> int {
    if core_order(left, right) != 0 {
        core_order(left, right)
    } else {
        semver_prerelease_order(left.pre, right.pre)
    }
}

/// Whether `r` is the precedence of `left` against `right`.
///
/// The answer is owed wherever the numbers differ, and between versions with the same
/// numbers where both are strict, as every parsed version is. Two stable versions with the
/// same numbers are equal, and a stable version is greater than each prerelease with its
/// numbers.
pub open spec fn is_precedence_of(r: Option<Ordering>, left: VersionView, right: VersionView) -> bool {
    &&& r is Some <==> core_order(left, right) != 0 || (left.is_strict() && right.is_strict())
    &&& r is Some ==> order_number(r->0) == precedence(left, right)
    &&& core_order(left, right) == 0 && left.pre.len() == 0 && right.pre.len() == 0 ==> r == Some(
        Ordering::Equal,
    )
    &&& core_order(left, right) == 0 && left.pre.len() == 0 && right.pre.len() > 0 ==> r is None
        || r == Some(Ordering::Greater)
    &&& core_order(left, right) == 0 && left.pre.len() > 0 && right.pre.len() == 0 ==> r is None
        || r == Some(Ordering::Less)
}

/// Reads both texts with `semver::Prerelease::new` and compares the results with the `cmp`
/// of their `Ord`; `None` where one of the texts is refused.
///
/// `new` accepts the empty text and series of prerelease identifiers, as the crate documents
/// their syntax. The contract names what `cmp` returns and adds what its source shows at its
/// start: two empty prereleases are equal, and an empty one, which stands for a stable
/// version, is greater than every other.
///
/// Texts beyond [`MAX_TEXT_LEN`] are kept from `new`: where addresses have 32 bits it gives
/// up on an identifier that takes up nearly all of the address space.
#[verifier::external_body]
fn compare_prerelease(left: &str, right: &str) -> (r: Option<Ordering>)
    requires
        left@.len() <= MAX_TEXT_LEN,
        right@.len() <= MAX_TEXT_LEN,
    ensures
        r is Some == (is_identifiers(left@, true) && is_identifiers(right@, true)),
        r is Some ==> order_number(r->0) == semver_prerelease_order(left@, right@),
        left@.len() == 0 && right@.len() == 0 ==> r == Some(Ordering::Equal),
        left@.len() == 0 && right@.len() > 0 ==> r is None || r == Some(Ordering::Greater),
        left@.len() > 0 && right@.len() == 0 ==> r is None || r == Some(Ordering::Less),
{
    let left = semver::Prerelease::new(left).ok()?;
    let right = semver::Prerelease::new(right).ok()?;
    Some(left.cmp(&right))
}

/// How two numbers compare.
fn compare_numbers(left: u64, right: u64) -> (order: Ordering)
    ensures
        order_number(order) == (if left < right {
            -1int
        } else if left == right {
            0
        } else {
            1
        }),
{
    if left < right {
        Ordering::Less
    } else if left == right {
        Ordering::Equal
    } else {
        Ordering::Greater
    }
}

impl Version {
    /// How the three numbers of two versions compare, the major number first.
    pub fn core_order(&self, other: &Version) -> (order: Ordering)
        ensures
            order_number(order) == core_order(self@, other@),
    {
        match compare_numbers(self.major, other.major) {
            Ordering::Equal => match compare_numbers(self.minor, other.minor) {
                Ordering::Equal => compare_numbers(self.patch, other.patch),
                order => order,
            },
            order => order,
        }
    }

    /// The precedence of two versions, given how their numbers and how their prerelease
    /// identifiers compare: the numbers decide unless they are equal.
    pub fn precedence_from(core: Ordering, prerelease: Option<Ordering>) -> (r: Option<Ordering>)
        ensures
            r == (if core == Ordering::Equal {
                prerelease
            } else {
                Some(core)
            }),
    {
        match core {
            Ordering::Equal => prerelease,
            _ => Some(core),
        }
    }

    /// Whether `self` comes before, with or after `other`.
    pub fn precedence(&self, other: &Version) -> (r: Option<Ordering>)
        ensures
            is_precedence_of(r, self@, other@),
    {
        let core = self.core_order(other);
        let prerelease = match core {
            Ordering::Equal => if self.pre.as_str().unicode_len() <= MAX_TEXT_LEN
                && other.pre.as_str().unicode_len() <= MAX_TEXT_LEN {
                compare_prerelease(self.pre.as_str(), other.pre.as_str())
            } else {
                None
            },
            _ => None,
        };
        Version::precedence_from(core, prerelease)
    }
}

impl GodotVersion {
    /// Whether this release comes before, with or after `other` by version precedence. The
    /// standard and the .NET build of one version come together.
    pub fn precedence(&self, other: &GodotVersion) -> (r: Option<Ordering>)
        ensures
            is_precedence_of(r, self.version@, other.version@),
    {
        self.version.precedence(&other.version)
    }
}

} // verus!
