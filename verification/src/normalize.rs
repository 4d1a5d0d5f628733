//! The lenient rewrite that turns upstream version strings into strict three-component form.
//!
//! Upstream writes `4.3`, `4.2.1-stable`, `4.5-beta1` or `4.1-rc2`; the strict grammar wants
//! `4.3.0`, `4.2.1`, `4.5.0-beta.1` and `4.1.0-rc.2`. The rewrite never fails: a string that
//! fits none of the patterns passes through and is left for the strict parser to judge.

use vstd::prelude::*;
use crate::godot::GodotVersion;
use crate::text::{
    all_digits, all_digits_in, append, chars_of, contains, decimal, ends_with, find, find_in,
    has_suffix, is_digit, is_digit_char, parse_u32, parse_u32_chars, push_decimal,
    slice_of, string_of, trim, trimmed,
};

verus! {

/// `s` cut in two at the leftmost occurrence of `pat`, which belongs to neither half.
pub open spec fn split_once(s: Seq<char>, pat: Seq<char>) -> Option<(Seq<char>, Seq<char>)> {
    match find(s, pat) {
        Some(i) => Some((s.take(i), s.skip(i + pat.len()))),
        None => None,
    }
}

/// `s` without one trailing `-stable`.
pub open spec fn strip_stable(s: Seq<char>) -> Seq<char> {
    if ends_with(s, "-stable"@) {
        s.take(s.len() - "-stable"@.len())
    } else {
        s
    }
}

/// The two dot-separated components of `s`, if it has exactly two.
pub open spec fn two_components(s: Seq<char>) -> Option<(Seq<char>, Seq<char>)> {
    match split_once(s, "."@) {
        Some((head, second)) => if contains(second, "."@) {
            None
        } else {
            Some((head, second))
        },
        None => None,
    }
}

/// `s` with a zero patch component added where it has only a major and a minor one:
/// `4.3` becomes `4.3.0`, and `4.5-beta1` becomes `4.5.0-beta1`.
pub open spec fn pad_patch(s: Seq<char>) -> Seq<char> {
    match two_components(s) {
        Some((head, second)) => if all_digits(second) {
            s + ".0"@
        } else if is_digit(second[0]) {
            match split_once(second, "-"@) {
                Some((minor, suffix)) => if all_digits(minor) {
                    head + "."@ + minor + ".0"@ + "-"@ + suffix
                } else {
                    s
                },
                None => s,
            }
        } else {
            s
        },
        None => s,
    }
}

/// What the rule for one prerelease tag makes of `s`, or `None` where the rule leaves `s`
/// to the rules after it. `tag` is the tag with its dash, such as `-beta`.
///
/// The rule looks at strings that hold `tag` but nowhere `tag` followed by a dot. What follows
/// the leftmost `tag` is read as an unsigned 32-bit integer and written back behind a dot;
/// where nothing follows, the string ends with the tag.
pub open spec fn rewrite_tag(s: Seq<char>, tag: Seq<char>) -> Option<Seq<char>> {
    if contains(s, tag) && !contains(s, tag + "."@) {
        let (base, counter) = split_once(s, tag)->0;
        match parse_u32(counter) {
            Some(n) => Some(base + tag + "."@ + decimal(n as nat)),
            None => if counter.len() == 0 {
                Some(base + tag)
            } else {
                None
            },
        }
    } else {
        None
    }
}

/// `s` after the first of the rules for `-beta`, `-rc` and `-alpha` that applies to it.
pub open spec fn rewrite_tags(s: Seq<char>) -> Seq<char> {
    match rewrite_tag(s, "-beta"@) {
        Some(r) => r,
        None => match rewrite_tag(s, "-rc"@) {
            Some(r) => r,
            None => match rewrite_tag(s, "-alpha"@) {
                Some(r) => r,
                None => s,
            },
        },
    }
}

/// The normal form of an upstream version string.
pub open spec fn normalize(input: Seq<char>) -> Seq<char> {
    rewrite_tags(pad_patch(strip_stable(trim(input))))
}

/// A copy of `s` without one trailing `-stable`.
fn strip_stable_chars(s: &Vec<char>) -> (out: Vec<char>)
    ensures
        out@ == strip_stable(s@),
{
    let suffix = chars_of("-stable");
    if has_suffix(s, &suffix) {
        slice_of(s, 0, s.len() - suffix.len())
    } else {
        slice_of(s, 0, s.len())
    }
}

/// A copy of `s` with a zero patch component added where it has two components.
fn pad_patch_chars(s: &Vec<char>) -> (out: Vec<char>)
    ensures
        out@ == pad_patch(s@),
{
    let dot = chars_of(".");
    let dash = chars_of("-");
    let zero = chars_of(".0");
    let mut out = slice_of(s, 0, s.len());
    assert(out@ =~= s@);
    let at = match find_in(s, &dot) {
        Some(at) => at,
        None => { return out; },
    };
    let head = slice_of(s, 0, at);
    let second = slice_of(s, at + dot.len(), s.len());
    if find_in(&second, &dot).is_some() {
        return out;
    }
    assert(two_components(s@) == Some((head@, second@)));
    assert(second@.subrange(0, second.len() as int) =~= second@);
    if all_digits_in(&second, 0, second.len()) {
        append(&mut out, &zero);
        return out;
    }
    if !is_digit_char(second[0]) {
        return out;
    }
    let cut = match find_in(&second, &dash) {
        Some(cut) => cut,
        None => { return out; },
    };
    if !all_digits_in(&second, 0, cut) {
        return out;
    }
    let mut padded = head;
    append(&mut padded, &dot);
    append(&mut padded, &slice_of(&second, 0, cut));
    append(&mut padded, &zero);
    append(&mut padded, &dash);
    append(&mut padded, &slice_of(&second, cut + dash.len(), second.len()));
    padded
}

/// What the rule for `tag` makes of `s`, or `None` where it leaves `s` to the next rule.
fn rewrite_tag_chars(s: &Vec<char>, tag: &str) -> (r: Option<Vec<char>>)
    ensures
        r matches Some(v) ==> rewrite_tag(s@, tag@) == Some(v@),
        r is None ==> rewrite_tag(s@, tag@) is None,
{
    let tag_chars = chars_of(tag);
    let dot = chars_of(".");
    let mut dotted = chars_of(tag);
    append(&mut dotted, &dot);
    let at = match find_in(s, &tag_chars) {
        Some(at) => at,
        None => { return None; },
    };
    if find_in(s, &dotted).is_some() {
        return None;
    }
    assert(at + tag_chars.len() <= s.len());
    let counter = slice_of(s, at + tag_chars.len(), s.len());
    let mut out = slice_of(s, 0, at);
    append(&mut out, &tag_chars);
    match parse_u32_chars(&counter) {
        Some(n) => {
            append(&mut out, &dot);
            push_decimal(&mut out, n as u64);
            Some(out)
        },
        None => if counter.len() == 0 {
            Some(out)
        } else {
            None
        },
    }
}

/// `s` after the first of the three rules that applies to it.
fn rewrite_tags_chars(s: Vec<char>) -> (out: Vec<char>)
    ensures
        out@ == rewrite_tags(s@),
{
    if let Some(out) = rewrite_tag_chars(&s, "-beta") {
        return out;
    }
    if let Some(out) = rewrite_tag_chars(&s, "-rc") {
        return out;
    }
    if let Some(out) = rewrite_tag_chars(&s, "-alpha") {
        return out;
    }
    s
}

impl GodotVersion {
    /// Rewrites an upstream version string into the form that the strict parser takes.
    pub fn normalize_version_string(version_str: &str) -> (out: String)
        ensures
            out@ == normalize(version_str@),
    {
        let trimmed_input = trimmed(&chars_of(version_str));
        let cleaned = strip_stable_chars(&trimmed_input);
        let padded = pad_patch_chars(&cleaned);
        string_of(&rewrite_tags_chars(padded))
    }
}

} // verus!
