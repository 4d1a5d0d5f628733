//! Strict three-component versions: their parts, the grammar that writes them, and the
//! parser that reads them.

use vstd::prelude::*;
use vstd::std_specs::cmp::PartialEqSpecImpl;
use vstd::string::{StrSliceExecFns, StringExecFns};
use crate::text::{
    all_digits, all_digits_in, chars_of, decimal, is_digit, lemma_decimal_len_u64, push_decimal,
    string_of,
};

verus! {

/// The longest text, counted in characters, that the strict parser is asked about. A longer
/// text is no version.
pub const MAX_TEXT_LEN: usize = 0x0fff_ffff;

/// The one way in which building a version can fail.
#[derive(Debug, Clone, Copy, PartialEq, Eq, Structural)]
pub enum VersionError {
    /// The string, once normalized, is not a version in the strict grammar.
    InvalidVersionFormat,
}

/// A version in the strict grammar: three numbers, then the prerelease identifiers and the
/// build metadata as they are written, each empty where the version has none.
#[derive(Debug, Clone, Hash)]
pub struct Version {
    pub major: u64,
    pub minor: u64,
    pub patch: u64,
    /// The dot-separated prerelease identifiers, without the leading dash.
    pub pre: String,
    /// The dot-separated build metadata, without the leading plus sign.
    pub build: String,
}

/// What a [`Version`] holds, as mathematical values.
pub ghost struct VersionView {
    pub major: nat,
    pub minor: nat,
    pub patch: nat,
    pub pre: Seq<char>,
    pub build: Seq<char>,
}

impl View for Version {
    type V = VersionView;

    open spec fn view(&self) -> VersionView {
        VersionView {
            major: self.major as nat,
            minor: self.minor as nat,
            patch: self.patch as nat,
            pre: self.pre@,
            build: self.build@,
        }
    }
}

impl PartialEq for Version {
    /// Two versions are equal where all five parts are.
    fn eq(&self, other: &Version) -> (r: bool) {
        self.major == other.major && self.minor == other.minor && self.patch == other.patch
            && self.pre == other.pre && self.build == other.build
    }
}

impl PartialEqSpecImpl for Version {
    open spec fn obeys_eq_spec() -> bool {
        true
    }

    open spec fn eq_spec(&self, other: &Version) -> bool {
        self@ == other@
    }
}

impl Eq for Version {

}

/// The three numbers of a version joined by dots.
pub open spec fn core_text(major: nat, minor: nat, patch: nat) -> Seq<char> {
    decimal(major) + "."@ + decimal(minor) + "."@ + decimal(patch)
}

impl VersionView {
    /// The stable version with the given numbers.
    pub open spec fn stable(major: nat, minor: nat, patch: nat) -> VersionView {
        VersionView { major, minor, patch, pre: Seq::empty(), build: Seq::empty() }
    }

    /// The dash and the prerelease identifiers, or nothing for a stable version.
    pub open spec fn pre_text(self) -> Seq<char> {
        if self.pre.len() > 0 {
            "-"@ + self.pre
        } else {
            Seq::empty()
        }
    }

    /// The plus sign and the build metadata, or nothing where there is none.
    pub open spec fn build_text(self) -> Seq<char> {
        if self.build.len() > 0 {
            "+"@ + self.build
        } else {
            Seq::empty()
        }
    }

    /// The version as the strict grammar writes it.
    pub open spec fn text(self) -> Seq<char> {
        core_text(self.major, self.minor, self.patch) + self.pre_text() + self.build_text()
    }

    /// Whether the parts are such as the strict grammar writes: numbers that fit in 64 bits,
    /// prerelease identifiers without leading zeros in their numbers, and build metadata.
    pub open spec fn is_well_formed(self) -> bool {
        &&& self.major <= u64::MAX
        &&& self.minor <= u64::MAX
        &&& self.patch <= u64::MAX
        &&& is_identifiers(self.pre, true)
        &&& is_identifiers(self.build, false)
    }

    /// Whether the prerelease identifiers are in the strict grammar and of a length that
    /// the strict parser is asked about, as those of every parsed version are.
    pub open spec fn is_strict(self) -> bool {
        self.pre.len() <= MAX_TEXT_LEN && is_identifiers(self.pre, true)
    }
}

/// Whether `c` may stand in an identifier: an ASCII letter, a digit or a hyphen.
pub open spec fn is_identifier_char(c: char) -> bool {
    is_digit(c) || 'a' <= c <= 'z' || 'A' <= c <= 'Z' || c == '-'
}

/// Whether `id` is one identifier: not empty and made of identifier characters. Where
/// `numeric_strict` is set, as it is for prerelease identifiers, a number of more than one
/// digit must not start with a zero.
pub open spec fn is_identifier(id: Seq<char>, numeric_strict: bool) -> bool {
    &&& id.len() > 0
    &&& forall|i: int| 0 <= i < id.len() ==> is_identifier_char(#[trigger] id[i])
    &&& numeric_strict && id.len() > 1 && all_digits(id) ==> id[0] != '0'
}

/// Whether `s[from..to]` is one of the parts that the dots of `s` cut it into.
pub open spec fn is_part(s: Seq<char>, from: int, to: int) -> bool {
    &&& 0 <= from <= to <= s.len()
    &&& from == 0 || s[from - 1] == '.'
    &&& to == s.len() || s[to] == '.'
    &&& forall|i: int| from <= i < to ==> s[i] != '.'
}

/// Whether `s` is empty or a series of identifiers separated by dots.
pub open spec fn is_identifiers(s: Seq<char>, numeric_strict: bool) -> bool {
    s.len() == 0 || forall|from: int, to: int| #[trigger]
        is_part(s, from, to) ==> is_identifier(s.subrange(from, to), numeric_strict)
}

/// Whether `text` writes the version `w` in the strict grammar, and is no longer than
/// [`MAX_TEXT_LEN`].
pub open spec fn writes(text: Seq<char>, w: VersionView) -> bool {
    text.len() <= MAX_TEXT_LEN && w.is_well_formed() && w.text() == text
}

/// Whether `text` writes the version `v` and no other.
pub open spec fn reads_as(text: Seq<char>, v: VersionView) -> bool {
    writes(text, v) && forall|w: VersionView| #[trigger] writes(text, w) ==> w == v
}

/// Whether `text` writes no version.
pub open spec fn reads_as_nothing(text: Seq<char>) -> bool {
    forall|w: VersionView| !#[trigger] writes(text, w)
}

/// Whether `r` is what reading `text` in the strict grammar gives: the one version that
/// `text` writes, or the error where it writes none.
pub open spec fn is_reading_of(r: Result<Version, VersionError>, text: Seq<char>) -> bool {
    match r {
        Ok(v) => reads_as(text, v@),
        Err(e) => e == VersionError::InvalidVersionFormat && reads_as_nothing(text),
    }
}

/// The error that the parsers of `semver` report; it is carried through as it is, and
/// nothing is read out of it.
#[verifier::external_type_specification]
#[verifier::external_body]
pub struct ExSemverError(semver::Error);

/// Calls `semver::Version::parse` and copies the fields of the version it returns.
///
/// The contract states the grammar that the parser documents. What it accepts has three
/// numbers without leading zeros that fit in 64 bits; behind them a dash and prerelease
/// identifiers, a plus sign and build metadata, both or neither; and nothing else. The
/// identifiers are separated by dots, not empty, and made of ASCII letters, digits and
/// hyphens; a prerelease identifier of digits alone has no leading zero. So an accepted
/// text is the one that the returned parts write, and a text that well-formed parts write
/// is accepted with those parts.
///
/// The parser is kept from texts beyond [`MAX_TEXT_LEN`]: where addresses have 32 bits it
/// gives up on an identifier that takes up nearly all of the address space.
#[verifier::external_body]
fn parse_strict(text: &str) -> (r: Result<Version, semver::Error>)
    requires
        text@.len() <= MAX_TEXT_LEN,
    ensures
        r is Ok ==> r->Ok_0@.is_well_formed() && r->Ok_0@.text() == text@,
        forall|w: VersionView|
            w.is_well_formed() && #[trigger] w.text() == text@ ==> r is Ok && r->Ok_0@ == w,
{
    match semver::Version::parse(text) {
        Ok(v) => Ok(
            Version {
                major: v.major,
                minor: v.minor,
                patch: v.patch,
                pre: v.pre.as_str().to_string(),
                build: v.build.as_str().to_string(),
            },
        ),
        Err(e) => Err(e),
    }
}

/// Whether `c` may stand in an identifier.
fn is_identifier_char_of(c: char) -> (r: bool)
    ensures
        r == is_identifier_char(c),
{
    ('0' <= c && c <= '9') || ('a' <= c && c <= 'z') || ('A' <= c && c <= 'Z') || c == '-'
}

/// Whether `s[from..to]` is one identifier.
fn is_identifier_in(s: &Vec<char>, from: usize, to: usize, numeric_strict: bool) -> (r: bool)
    requires
        from <= to <= s.len(),
    ensures
        r == is_identifier(s@.subrange(from as int, to as int), numeric_strict),
{
    let ghost id = s@.subrange(from as int, to as int);
    if from == to {
        return false;
    }
    let mut i: usize = from;
    while i < to
        invariant
            from <= i <= to <= s.len(),
            id == s@.subrange(from as int, to as int),
            forall|k: int| 0 <= k < i - from ==> is_identifier_char(#[trigger] id[k]),
        decreases to - i,
    {
        if !is_identifier_char_of(s[i]) {
            assert(!is_identifier_char(id[i - from]));
            return false;
        }
        i += 1;
    }
    !(numeric_strict && to - from > 1 && s[from] == '0' && all_digits_in(s, from, to))
}

/// Whether a text is empty or a series of identifiers separated by dots. Where
/// `numeric_strict` is set, as it is for prerelease identifiers, a number of more than one
/// digit must not start with a zero.
pub fn has_identifiers(text: &str, numeric_strict: bool) -> (r: bool)
    ensures
        r == is_identifiers(text@, numeric_strict),
{
    let s = chars_of(text);
    if s.len() == 0 {
        return true;
    }
    let mut start: usize = 0;
    let mut i: usize = 0;
    while i < s.len()
        invariant
            start <= i <= s.len(),
            s@ == text@,
            s.len() > 0,
            start == 0 || s@[start - 1] == '.',
            forall|k: int| start <= k < i ==> s@[k] != '.',
            forall|from: int, to: int| #[trigger]
                is_part(s@, from, to) && to < start ==> is_identifier(
                    s@.subrange(from, to),
                    numeric_strict,
                ),
        decreases s.len() - i,
    {
        if s[i] == '.' {
            assert(is_part(s@, start as int, i as int));
            if !is_identifier_in(&s, start, i, numeric_strict) {
                return false;
            }
            assert forall|from: int, to: int| #[trigger]
                is_part(s@, from, to) && to < i + 1 implies is_identifier(
                s@.subrange(from, to),
                numeric_strict,
            ) by {
                if to >= start {
                    lemma_part_is_found(s@, start as int, i as int, from, to);
                }
            }
            start = i + 1;
        }
        i += 1;
    }
    assert(is_part(s@, start as int, s.len() as int));
    let last = is_identifier_in(&s, start, s.len(), numeric_strict);
    proof {
        if last {
            assert forall|from: int, to: int| #[trigger] is_part(s@, from, to) implies is_identifier(
                s@.subrange(from, to),
                numeric_strict,
            ) by {
                if to >= start {
                    lemma_part_is_found(s@, start as int, s.len() as int, from, to);
                }
            }
        }
    }
    last
}

/// A part that ends no earlier than a known part starts is that part.
proof fn lemma_part_is_found(s: Seq<char>, start: int, end: int, from: int, to: int)
    requires
        is_part(s, start, end),
        is_part(s, from, to),
        start <= to <= end,
    ensures
        from == start,
        to == end,
{
    if to < end {
        assert(s[to] == '.');
    }
    if from < start {
        assert(s[start - 1] == '.');
    }
    if from > start {
        assert(s[from - 1] == '.');
    }
}

impl Version {
    /// Whether the parts are such as the strict grammar writes.
    pub fn is_well_formed(&self) -> (r: bool)
        ensures
            r == self@.is_well_formed(),
    {
        has_identifiers(self.pre.as_str(), true) && has_identifiers(self.build.as_str(), false)
    }

    /// Whether the version carries prerelease identifiers.
    pub fn is_prerelease(&self) -> (r: bool)
        ensures
            r == (self@.pre.len() > 0),
    {
        !self.pre.as_str().is_empty()
    }

    /// The version as the strict grammar writes it.
    pub fn to_text(&self) -> (out: String)
        ensures
            out@ == self@.text(),
    {
        let mut chars: Vec<char> = Vec::new();
        push_decimal(&mut chars, self.major);
        chars.push('.');
        push_decimal(&mut chars, self.minor);
        chars.push('.');
        push_decimal(&mut chars, self.patch);
        let mut out = string_of(&chars);
        proof {
            reveal_strlit(".");
            assert(out@ =~= core_text(self@.major, self@.minor, self@.patch));
        }
        if !self.pre.as_str().is_empty() {
            out.append("-");
            out.append(self.pre.as_str());
        }
        assert(out@ =~= core_text(self@.major, self@.minor, self@.patch) + self@.pre_text());
        if !self.build.as_str().is_empty() {
            out.append("+");
            out.append(self.build.as_str());
        }
        assert(out@ =~= self@.text());
        out
    }

    /// The result of the strict parser, with its error replaced by the library's own.
    pub fn from_outcome(outcome: Result<Version, semver::Error>) -> (r: Result<
        Version,
        VersionError,
    >)
        ensures
            match outcome {
                Ok(v) => r == Ok::<Version, VersionError>(v),
                Err(_) => r == Err::<Version, VersionError>(VersionError::InvalidVersionFormat),
            },
    {
        match outcome {
            Ok(v) => Ok(v),
            Err(_) => Err(VersionError::InvalidVersionFormat),
        }
    }

    /// Reads a version in the strict grammar.
    ///
    /// Succeeds exactly on the texts that write a version and are no longer than
    /// [`MAX_TEXT_LEN`], and returns the one version that the text writes.
    pub fn parse(text: &str) -> (r: Result<Version, VersionError>)
        ensures
            is_reading_of(r, text@),
            r matches Ok(v) ==> v@.is_strict(),
    {
        if text.unicode_len() > MAX_TEXT_LEN {
            return Err(VersionError::InvalidVersionFormat);
        }
        Version::from_outcome(parse_strict(text))
    }
}

/// Three numbers that fit in 64 bits, joined by dots, take at most 62 characters.
pub proof fn lemma_core_len(major: u64, minor: u64, patch: u64)
    ensures
        core_text(major as nat, minor as nat, patch as nat).len() <= 62,
{
    reveal_strlit(".");
    lemma_decimal_len_u64(major as nat);
    lemma_decimal_len_u64(minor as nat);
    lemma_decimal_len_u64(patch as nat);
}

/// Three numbers that fit in 64 bits, joined by dots, write the stable version with those
/// numbers.
pub proof fn lemma_writes_stable(major: u64, minor: u64, patch: u64)
    ensures
        writes(
            core_text(major as nat, minor as nat, patch as nat),
            VersionView::stable(major as nat, minor as nat, patch as nat),
        ),
{
    lemma_core_len(major, minor, patch);
    assert(VersionView::stable(major as nat, minor as nat, patch as nat).text() =~= core_text(
        major as nat,
        minor as nat,
        patch as nat,
    ));
}

} // verus!
