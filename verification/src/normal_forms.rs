//! What the normalizer makes of the forms in which upstream writes its versions.
//!
//! A version in normal form is three numbers joined by dots, alone or followed by a dash and
//! one of the tags `alpha`, `beta` and `rc`, which may have a counter behind a dot. The
//! normalizer returns such a text unchanged, and it brings the shorter upstream forms into
//! that form.

use vstd::prelude::*;
use crate::normalize::{
    normalize, pad_patch, rewrite_tag, rewrite_tags, split_once, strip_stable, two_components,
};
use crate::text::{
    all_digits, contains, decimal, ends_with, find, is_digit, is_first_occurrence, is_whitespace,
    lemma_decimal_digits, lemma_decimal_leading, lemma_decimal_len_u64, lemma_find, lemma_found,
    lemma_mismatch, lemma_parse_decimal, lemma_pattern_absent, lemma_trim_fixed, occurs_at, trim,
};
use crate::version::{
    core_text, is_identifier, is_identifier_char, is_identifiers, is_part, lemma_core_len, writes,
    VersionView,
};

verus! {

/// A pattern that starts with a dash stands only where the text has a dash.
pub proof fn lemma_occurrence_starts_with_dash(s: Seq<char>, pat: Seq<char>, i: int)
    requires
        pat.len() > 0,
        pat[0] == '-',
        occurs_at(s, pat, i),
    ensures
        0 <= i < s.len(),
        s[i] == '-',
{
    assert(s.subrange(i, i + pat.len())[0] == pat[0]);
}

/// A text with two dots has more than two components.
pub proof fn lemma_two_dots(s: Seq<char>, first: int, second: int)
    requires
        0 <= first < second < s.len(),
        s[first] == '.',
        s[second] == '.',
    ensures
        two_components(s) is None,
{
    reveal_strlit(".");
    assert(s.subrange(first, first + 1) =~= "."@);
    assert(occurs_at(s, "."@, first));
    let at = find(s, "."@)->0;
    lemma_find(s, "."@);
    assert(at <= first);
    let rest = s.skip(at + 1);
    assert(rest.subrange(second - at - 1, second - at) =~= "."@);
    assert(occurs_at(rest, "."@, second - at - 1));
}

/// Whether `s` is made of digits and dots, with a digit at each end and at least two dots: the
/// shape of three numbers joined by dots.
pub open spec fn is_dotted_core(s: Seq<char>) -> bool {
    &&& s.len() > 0
    &&& is_digit(s[0])
    &&& is_digit(s.last())
    &&& forall|i: int| 0 <= i < s.len() ==> is_digit(#[trigger] s[i]) || s[i] == '.'
    &&& exists|first: int, second: int|
        0 <= first < second < s.len() && #[trigger] s[first] == '.' && #[trigger] s[second] == '.'
}

/// Three numbers joined by dots have the shape that [`is_dotted_core`] describes.
pub proof fn lemma_core_shape(major: nat, minor: nat, patch: nat)
    ensures
        is_dotted_core(core_text(major, minor, patch)),
{
    reveal_strlit(".");
    lemma_decimal_digits(major);
    lemma_decimal_digits(minor);
    lemma_decimal_digits(patch);
    let a = decimal(major);
    let b = decimal(minor);
    let c = decimal(patch);
    let s = core_text(major, minor, patch);
    let first = a.len() as int;
    let second = (a.len() + 1 + b.len()) as int;
    assert(s.len() == a.len() + b.len() + c.len() + 2);
    assert forall|i: int| 0 <= i < s.len() implies is_digit(#[trigger] s[i]) || s[i] == '.' by {
        if i < first {
            assert(s[i] == a[i]);
        } else if i == first {
            assert(s[i] == '.');
        } else if i < second {
            assert(s[i] == b[i - first - 1]);
        } else if i == second {
            assert(s[i] == '.');
        } else {
            assert(s[i] == c[i - second - 1]);
        }
    }
    assert(s[0] == a[0]);
    assert(s.last() == c.last());
    assert(s[first] == '.' && s[second] == '.');
}

/// A pattern that starts with a dash is absent from a text where it does not stand at the
/// only dash; the rule for a tag then leaves such a text to the next rule.
pub(crate) proof fn lemma_tag_absent(s: Seq<char>, dashed: Seq<char>, dash_at: int)
    requires
        dashed.len() >= 1,
        dashed[0] == '-',
        forall|i: int| 0 <= i < s.len() && i != dash_at ==> s[i] != '-',
        !occurs_at(s, dashed, dash_at),
    ensures
        forall|i: int| !occurs_at(s, dashed, i),
        !contains(s, dashed),
        rewrite_tag(s, dashed) is None,
{
    assert forall|i: int| !occurs_at(s, dashed, i) by {
        if occurs_at(s, dashed, i) {
            lemma_occurrence_starts_with_dash(s, dashed, i);
        }
    }
}

/// In a text with one dash, a tag that stands at the dash stands nowhere else.
pub(crate) proof fn lemma_tag_present(s: Seq<char>, dashed: Seq<char>, dash_at: int)
    requires
        dashed.len() >= 2,
        dashed[0] == '-',
        forall|i: int| 0 <= i < s.len() && i != dash_at ==> s[i] != '-',
        occurs_at(s, dashed, dash_at),
    ensures
        contains(s, dashed),
        find(s, dashed) == Some(dash_at),
        split_once(s, dashed) == Some((s.take(dash_at), s.skip(dash_at + dashed.len()))),
{
    assert forall|j: int| 0 <= j < dash_at implies !occurs_at(s, dashed, j) by {
        if occurs_at(s, dashed, j) {
            lemma_occurrence_starts_with_dash(s, dashed, j);
        }
    }
    assert(is_first_occurrence(s, dashed, dash_at));
    lemma_found(s, dashed, dash_at);
}

/// The first three steps of the normalizer leave alone a text that starts with three
/// numbers joined by dots, has no whitespace at its end and does not end in `e`.
proof fn lemma_prefix_steps_fixed(s: Seq<char>, core: Seq<char>)
    requires
        is_dotted_core(core),
        core.is_prefix_of(s),
        !is_whitespace(s.last()),
        s.last() != 'e',
    ensures
        pad_patch(strip_stable(trim(s))) == s,
{
    assert(s[0] == core[0]);
    lemma_trim_fixed(s);
    assert(strip_stable(s) == s) by {
        reveal_strlit("-stable");
        if ends_with(s, "-stable"@) {
            assert(s.subrange(s.len() - 7, s.len() as int)[6] == 'e');
        }
    }
    let (first, second) = choose|first: int, second: int|
        0 <= first < second < core.len() && #[trigger] core[first] == '.' && #[trigger] core[second]
            == '.';
    assert(s[first] == core[first] && s[second] == core[second]);
    lemma_two_dots(s, first, second);
}

/// Whether `tag` is one of the three prerelease tags that the normalizer knows.
pub open spec fn is_known_tag(tag: Seq<char>) -> bool {
    tag == "alpha"@ || tag == "beta"@ || tag == "rc"@
}

/// A known tag with its counter, as the strict grammar writes them: `beta.2`, or `beta`
/// where there is no counter.
pub open spec fn tagged_pre(tag: Seq<char>, counter: Option<nat>) -> Seq<char> {
    match counter {
        Some(n) => tag + "."@ + decimal(n),
        None => tag,
    }
}

/// A known tag with its counter, as upstream writes them: `beta2`, or `beta`.
pub open spec fn tagged_upstream(tag: Seq<char>, counter: Option<nat>) -> Seq<char> {
    match counter {
        Some(n) => tag + decimal(n),
        None => tag,
    }
}

/// Whether a text holds no dash.
pub open spec fn has_no_dash(s: Seq<char>) -> bool {
    forall|i: int| 0 <= i < s.len() ==> s[i] != '-'
}

/// The rules for the tags on a text with one dash that one of the tags follows: the rules
/// for the other two tags leave the text alone, so the outcome is that of the rule for the
/// tag at the dash.
proof fn lemma_rewrite_tags_at(s: Seq<char>, dashed: Seq<char>, at: int)
    requires
        dashed == "-beta"@ || dashed == "-rc"@ || dashed == "-alpha"@,
        0 <= at,
        forall|i: int| 0 <= i < s.len() && i != at ==> s[i] != '-',
        occurs_at(s, dashed, at),
    ensures
        rewrite_tags(s) == (match rewrite_tag(s, dashed) {
            Some(r) => r,
            None => s,
        }),
{
    reveal_strlit("-beta");
    reveal_strlit("-rc");
    reveal_strlit("-alpha");
    assert(s.subrange(at, at + dashed.len())[1] == dashed[1]);
    if dashed != "-beta"@ {
        lemma_mismatch(s, "-beta"@, at, 1);
        lemma_tag_absent(s, "-beta"@, at);
    }
    if dashed != "-rc"@ {
        lemma_mismatch(s, "-rc"@, at, 1);
        lemma_tag_absent(s, "-rc"@, at);
    }
    if dashed != "-alpha"@ {
        lemma_mismatch(s, "-alpha"@, at, 1);
        lemma_tag_absent(s, "-alpha"@, at);
    }
}

/// In a text made of a head without a dash, a dash with a known tag, and a tail without a
/// dash, the tag stands at the only dash.
proof fn lemma_single_dash(head: Seq<char>, tag: Seq<char>, tail: Seq<char>)
    requires
        has_no_dash(head),
        has_no_dash(tail),
        is_known_tag(tag),
    ensures
        "-"@ + tag == "-beta"@ || "-"@ + tag == "-rc"@ || "-"@ + tag == "-alpha"@,
        ("-"@ + tag).len() >= 2,
        ("-"@ + tag)[0] == '-',
        occurs_at(head + ("-"@ + tag) + tail, "-"@ + tag, head.len() as int),
        forall|i: int|
            0 <= i < (head + ("-"@ + tag) + tail).len() && i != head.len() ==> (head + ("-"@
                + tag) + tail)[i] != '-',
{
    reveal_strlit("-");
    reveal_strlit("alpha");
    reveal_strlit("beta");
    reveal_strlit("rc");
    reveal_strlit("-beta");
    reveal_strlit("-rc");
    reveal_strlit("-alpha");
    let dashed = "-"@ + tag;
    let s = head + dashed + tail;
    let at = head.len() as int;
    assert(dashed =~= "-beta"@ || dashed =~= "-rc"@ || dashed =~= "-alpha"@);
    assert(s.subrange(at, at + dashed.len()) =~= dashed);
    assert forall|i: int| 0 <= i < s.len() && i != at implies s[i] != '-' by {
        if i < at {
            assert(s[i] == head[i]);
        } else if i < at + dashed.len() {
            assert(s[i] == dashed[i - at]);
        } else {
            assert(s[i] == tail[i - at - dashed.len()]);
        }
    }
}

/// The rules for the tags leave alone a known tag that stands alone or has its counter
/// behind a dot.
pub proof fn lemma_rewrite_tags_fixed(head: Seq<char>, tag: Seq<char>, counter: Option<nat>)
    requires
        has_no_dash(head),
        is_known_tag(tag),
    ensures
        rewrite_tags(head + "-"@ + tagged_pre(tag, counter)) == head + "-"@ + tagged_pre(
            tag,
            counter,
        ),
{
    reveal_strlit(".");
    let dashed = "-"@ + tag;
    let tail = match counter {
        Some(n) => "."@ + decimal(n),
        None => Seq::<char>::empty(),
    };
    let s = head + "-"@ + tagged_pre(tag, counter);
    let at = head.len() as int;
    if counter is Some {
        lemma_decimal_digits(counter->0);
        assert forall|i: int| 0 <= i < tail.len() implies tail[i] != '-' by {
            if i > 0 {
                assert(tail[i] == decimal(counter->0)[i - 1]);
            }
        }
    }
    assert(s =~= head + dashed + tail);
    lemma_single_dash(head, tag, tail);
    lemma_tag_present(s, dashed, at);
    lemma_rewrite_tags_at(s, dashed, at);
    if counter is Some {
        assert(s.subrange(at, at + (dashed + "."@).len()) =~= dashed + "."@);
        assert(occurs_at(s, dashed + "."@, at));
    } else {
        lemma_mismatch(s, dashed + "."@, at, dashed.len() as int);
        lemma_tag_absent(s, dashed + "."@, at);
        assert(s.skip(at + dashed.len()) =~= Seq::<char>::empty());
        assert(s.take(at) + dashed =~= s);
    }
}

/// The rules for the tags put a dot between a known tag and the counter that upstream
/// writes right behind it: `-beta2` becomes `-beta.2`.
pub proof fn lemma_rewrite_tags_compact(head: Seq<char>, tag: Seq<char>, n: nat)
    requires
        has_no_dash(head),
        is_known_tag(tag),
        n <= u32::MAX,
    ensures
        rewrite_tags(head + "-"@ + tag + decimal(n)) == head + "-"@ + tag + "."@ + decimal(n),
{
    reveal_strlit(".");
    let dashed = "-"@ + tag;
    let tail = decimal(n);
    let s = head + "-"@ + tag + decimal(n);
    let at = head.len() as int;
    lemma_decimal_digits(n);
    lemma_parse_decimal(n);
    assert(s =~= head + dashed + tail);
    lemma_single_dash(head, tag, tail);
    lemma_tag_present(s, dashed, at);
    lemma_rewrite_tags_at(s, dashed, at);
    assert(s[at + dashed.len()] == tail[0]);
    lemma_mismatch(s, dashed + "."@, at, dashed.len() as int);
    lemma_tag_absent(s, dashed + "."@, at);
    assert(s.skip(at + dashed.len()) =~= tail);
    assert(s.take(at) + dashed + "."@ + decimal(n) =~= head + "-"@ + tag + "."@ + decimal(n));
}

/// The rules for the tags leave alone a text without a dash.
pub proof fn lemma_rewrite_tags_plain(s: Seq<char>)
    requires
        has_no_dash(s),
    ensures
        rewrite_tags(s) == s,
{
    reveal_strlit("-beta");
    reveal_strlit("-rc");
    reveal_strlit("-alpha");
    lemma_tag_absent(s, "-beta"@, -1);
    lemma_tag_absent(s, "-rc"@, -1);
    lemma_tag_absent(s, "-alpha"@, -1);
}

/// Three numbers joined by dots are in normal form: the normalizer returns them unchanged.
pub proof fn lemma_normalize_core(major: nat, minor: nat, patch: nat)
    ensures
        normalize(core_text(major, minor, patch)) == core_text(major, minor, patch),
{
    let s = core_text(major, minor, patch);
    lemma_core_shape(major, minor, patch);
    lemma_prefix_steps_fixed(s, s);
    lemma_rewrite_tags_plain(s);
}

/// A text that ends with a known tag, or with digits, ends neither with whitespace nor
/// with the letter `e`.
proof fn lemma_tagged_end(s: Seq<char>, end: Seq<char>)
    requires
        is_known_tag(end) || (end.len() > 0 && all_digits(end)),
        end.is_suffix_of(s),
    ensures
        s.len() > 0,
        !is_whitespace(s.last()),
        s.last() != 'e',
{
    reveal_strlit("alpha");
    reveal_strlit("beta");
    reveal_strlit("rc");
    assert(s.last() == end.last());
    assert(!is_known_tag(end) ==> is_digit(end[end.len() - 1]));
}

/// Normalizing a text in normal form changes nothing: three numbers joined by dots, then a
/// dash and one of the known tags, alone or with a dot and a counter, come back as they are.
pub proof fn lemma_normalize_tagged(
    major: nat,
    minor: nat,
    patch: nat,
    tag: Seq<char>,
    counter: Option<nat>,
)
    requires
        is_known_tag(tag),
    ensures
        normalize(core_text(major, minor, patch) + "-"@ + tagged_pre(tag, counter)) == core_text(
            major,
            minor,
            patch,
        ) + "-"@ + tagged_pre(tag, counter),
{
    let core = core_text(major, minor, patch);
    let s = core + "-"@ + tagged_pre(tag, counter);
    lemma_core_shape(major, minor, patch);
    match counter {
        Some(n) => {
            lemma_decimal_digits(n);
            assert(s =~= core + "-"@ + tag + "."@ + decimal(n));
            lemma_tagged_end(s, decimal(n));
        },
        None => {
            lemma_tagged_end(s, tag);
        },
    }
    lemma_prefix_steps_fixed(s, core);
    lemma_rewrite_tags_fixed(core, tag, counter);
}

/// The normalizer puts the dot of the strict grammar between a known tag and the counter
/// that upstream writes right behind it: `4.3.0-beta2` becomes `4.3.0-beta.2`.
pub proof fn lemma_normalize_compact(major: nat, minor: nat, patch: nat, tag: Seq<char>, n: nat)
    requires
        is_known_tag(tag),
        n <= u32::MAX,
    ensures
        normalize(core_text(major, minor, patch) + "-"@ + tag + decimal(n)) == core_text(
            major,
            minor,
            patch,
        ) + "-"@ + tagged_pre(tag, Some(n)),
{
    let core = core_text(major, minor, patch);
    let s = core + "-"@ + tag + decimal(n);
    lemma_core_shape(major, minor, patch);
    lemma_decimal_digits(n);
    lemma_tagged_end(s, decimal(n));
    lemma_prefix_steps_fixed(s, core);
    lemma_rewrite_tags_compact(core, tag, n);
    assert(core + "-"@ + tag + "."@ + decimal(n) =~= core + "-"@ + tagged_pre(tag, Some(n)));
}

/// The normalizer drops the `-stable` that upstream puts behind the three numbers of a
/// stable version.
pub proof fn lemma_normalize_stable(major: nat, minor: nat, patch: nat)
    ensures
        normalize(core_text(major, minor, patch) + "-stable"@) == core_text(major, minor, patch),
{
    reveal_strlit("-stable");
    let core = core_text(major, minor, patch);
    let s = core + "-stable"@;
    lemma_core_shape(major, minor, patch);
    assert(s[0] == core[0]);
    lemma_trim_fixed(s);
    assert(s.subrange(s.len() - 7, s.len() as int) =~= "-stable"@);
    assert(s.take(s.len() - 7) =~= core);
    assert(strip_stable(s) == core);
    lemma_normalize_core(major, minor, patch);
    lemma_trim_fixed(core);
    lemma_prefix_steps_fixed(core, core);
    assert(strip_stable(trim(core)) == core);
}

/// The pattern of one character stands first where that character stands first.
proof fn lemma_first_char(s: Seq<char>, pat: Seq<char>, at: int)
    requires
        pat.len() == 1,
        0 <= at < s.len(),
        s[at] == pat[0],
        forall|i: int| 0 <= i < at ==> s[i] != pat[0],
    ensures
        split_once(s, pat) == Some((s.take(at), s.skip(at + 1))),
        contains(s, pat),
{
    assert(s.subrange(at, at + 1) =~= pat);
    assert forall|j: int| 0 <= j < at implies !occurs_at(s, pat, j) by {
        lemma_mismatch(s, pat, j, 0);
    }
    assert(is_first_occurrence(s, pat, at));
    lemma_found(s, pat, at);
}

/// Whether a text holds no dot.
pub open spec fn has_no_dot(s: Seq<char>) -> bool {
    forall|i: int| 0 <= i < s.len() ==> s[i] != '.'
}

/// Two texts without a dot, joined by one, are two components.
proof fn lemma_two_components(head: Seq<char>, second: Seq<char>)
    requires
        has_no_dot(head),
        has_no_dot(second),
    ensures
        two_components(head + "."@ + second) == Some((head, second)),
{
    reveal_strlit(".");
    let s = head + "."@ + second;
    let at = head.len() as int;
    assert(s[at] == '.');
    assert forall|i: int| 0 <= i < at implies s[i] != "."@[0] by {
        assert(s[i] == head[i]);
    }
    lemma_first_char(s, "."@, at);
    assert(s.take(at) =~= head);
    assert(s.skip(at + 1) =~= second);
    lemma_pattern_absent(second, "."@);
}

/// A minor number that ends the text gets a zero patch number behind it.
proof fn lemma_pad_digits(head: Seq<char>, digits: Seq<char>)
    requires
        has_no_dot(head),
        all_digits(digits),
    ensures
        pad_patch(head + "."@ + digits) == head + "."@ + digits + ".0"@,
{
    assert(has_no_dot(digits)) by {
        assert forall|i: int| 0 <= i < digits.len() implies digits[i] != '.' by {
            assert(is_digit(digits[i]));
        }
    }
    lemma_two_components(head, digits);
}

/// A minor number with a dash behind it gets a zero patch number before the dash.
proof fn lemma_pad_dashed(head: Seq<char>, digits: Seq<char>, suffix: Seq<char>)
    requires
        has_no_dot(head),
        digits.len() > 0,
        all_digits(digits),
        has_no_dot(suffix),
    ensures
        pad_patch(head + "."@ + digits + "-"@ + suffix) == head + "."@ + digits + ".0"@ + "-"@
            + suffix,
{
    reveal_strlit("-");
    let second = digits + "-"@ + suffix;
    let cut = digits.len() as int;
    assert(has_no_dot(second)) by {
        assert forall|i: int| 0 <= i < second.len() implies second[i] != '.' by {
            if i < cut {
                assert(is_digit(digits[i]));
            } else if i > cut {
                assert(second[i] == suffix[i - cut - 1]);
            }
        }
    }
    assert(head + "."@ + digits + "-"@ + suffix =~= head + "."@ + second);
    lemma_two_components(head, second);
    assert(second[cut] == '-');
    assert(!all_digits(second));
    assert(second[0] == digits[0]);
    assert(is_digit(second[0]));
    assert forall|i: int| 0 <= i < cut implies second[i] != "-"@[0] by {
        assert(is_digit(digits[i]));
    }
    lemma_first_char(second, "-"@, cut);
    assert(second.take(cut) =~= digits);
    assert(second.skip(cut + 1) =~= suffix);
}

/// The first two steps of the normalizer leave alone a text that neither starts nor ends
/// with whitespace and does not end in `e`.
proof fn lemma_leading_steps_fixed(s: Seq<char>)
    requires
        s.len() > 0,
        !is_whitespace(s[0]),
        !is_whitespace(s.last()),
        s.last() != 'e',
    ensures
        strip_stable(trim(s)) == s,
{
    reveal_strlit("-stable");
    lemma_trim_fixed(s);
    if ends_with(s, "-stable"@) {
        assert(s.subrange(s.len() - 7, s.len() as int)[6] == 'e');
    }
}

/// The notation of zero is the digit `0`, so that a patch number of zero is written `.0`.
proof fn lemma_zero_patch(major: nat, minor: nat)
    ensures
        decimal(major) + "."@ + decimal(minor) + ".0"@ == core_text(major, minor, 0),
        has_no_dot(decimal(major)),
        decimal(major).len() > 0,
        !is_whitespace(decimal(major)[0]),
        has_no_dash(core_text(major, minor, 0)),
{
    reveal_strlit(".");
    reveal_strlit(".0");
    lemma_decimal_digits(major);
    assert(decimal(0) =~= seq!['0']);
    assert(decimal(major) + "."@ + decimal(minor) + ".0"@ =~= core_text(major, minor, 0));
    assert forall|i: int| 0 <= i < decimal(major).len() implies decimal(major)[i] != '.' by {
        assert(is_digit(decimal(major)[i]));
    }
    assert(is_digit(decimal(major)[0]));
    lemma_core_shape(major, minor, 0);
}

/// The normalizer gives a version of two numbers a zero patch number: `4.3` becomes
/// `4.3.0`.
pub proof fn lemma_normalize_short(major: nat, minor: nat)
    ensures
        normalize(decimal(major) + "."@ + decimal(minor)) == core_text(major, minor, 0),
{
    let s = decimal(major) + "."@ + decimal(minor);
    lemma_zero_patch(major, minor);
    lemma_decimal_digits(minor);
    assert(s[0] == decimal(major)[0]);
    lemma_tagged_end(s, decimal(minor));
    lemma_leading_steps_fixed(s);
    lemma_pad_digits(decimal(major), decimal(minor));
    lemma_rewrite_tags_plain(core_text(major, minor, 0));
}

/// A known tag, alone or with a counter right behind it, holds no dot.
proof fn lemma_upstream_tag_shape(tag: Seq<char>, counter: Option<nat>)
    requires
        is_known_tag(tag),
    ensures
        has_no_dot(tagged_upstream(tag, counter)),
{
    reveal_strlit("alpha");
    reveal_strlit("beta");
    reveal_strlit("rc");
    let suffix = tagged_upstream(tag, counter);
    if counter is Some {
        lemma_decimal_digits(counter->0);
    }
    assert forall|i: int| 0 <= i < suffix.len() implies suffix[i] != '.' by {
        if i >= tag.len() {
            assert(is_digit(decimal(counter->0)[i - tag.len()]));
        }
    }
}

/// The normalizer gives a prerelease of two numbers a zero patch number and puts the dot of
/// the strict grammar before the counter: `4.5-beta1` becomes `4.5.0-beta.1`.
pub proof fn lemma_normalize_short_tagged(
    major: nat,
    minor: nat,
    tag: Seq<char>,
    counter: Option<nat>,
)
    requires
        is_known_tag(tag),
        counter matches Some(n) ==> n <= u32::MAX,
    ensures
        normalize(decimal(major) + "."@ + decimal(minor) + "-"@ + tagged_upstream(tag, counter))
            == core_text(major, minor, 0) + "-"@ + tagged_pre(tag, counter),
{
    let suffix = tagged_upstream(tag, counter);
    let s = decimal(major) + "."@ + decimal(minor) + "-"@ + suffix;
    let core = core_text(major, minor, 0);
    lemma_zero_patch(major, minor);
    lemma_decimal_digits(minor);
    lemma_upstream_tag_shape(tag, counter);
    assert(s[0] == decimal(major)[0]);
    match counter {
        Some(n) => {
            lemma_decimal_digits(n);
            lemma_tagged_end(s, decimal(n));
        },
        None => {
            lemma_tagged_end(s, tag);
        },
    }
    lemma_leading_steps_fixed(s);
    lemma_pad_dashed(decimal(major), decimal(minor), suffix);
    assert(pad_patch(s) == core + "-"@ + suffix);
    match counter {
        Some(n) => {
            assert(core + "-"@ + suffix =~= core + "-"@ + tag + decimal(n));
            lemma_rewrite_tags_compact(core, tag, n);
            assert(core + "-"@ + tag + "."@ + decimal(n) =~= core + "-"@ + tagged_pre(
                tag,
                counter,
            ));
        },
        None => {
            lemma_rewrite_tags_fixed(core, tag, counter);
        },
    }
}

/// A known tag, alone or with a counter behind a dot, is a series of prerelease
/// identifiers.
pub proof fn lemma_tagged_identifiers(tag: Seq<char>, counter: Option<nat>)
    requires
        is_known_tag(tag),
    ensures
        tagged_pre(tag, counter).len() > 0,
        is_identifiers(tagged_pre(tag, counter), true),
{
    reveal_strlit(".");
    reveal_strlit("alpha");
    reveal_strlit("beta");
    reveal_strlit("rc");
    let s = tagged_pre(tag, counter);
    let cut = tag.len() as int;
    assert(is_identifier(tag, true)) by {
        assert(!is_digit(tag[0]));
    }
    match counter {
        None => {
            assert forall|from: int, to: int| #[trigger] is_part(s, from, to) implies is_identifier(
                s.subrange(from, to),
                true,
            ) by {
                if from > 0 {
                    assert(s[from - 1] != '.');
                }
                if to < s.len() {
                    assert(s[to] != '.');
                }
                assert(s.subrange(from, to) =~= tag);
            }
        },
        Some(n) => {
            let digits = decimal(n);
            lemma_decimal_digits(n);
            lemma_decimal_leading(n);
            assert(is_identifier(digits, true)) by {
                assert forall|i: int| 0 <= i < digits.len() implies is_identifier_char(
                    #[trigger] digits[i],
                ) by {
                    assert(is_digit(digits[i]));
                }
            }
            assert(s[cut] == '.');
            assert forall|i: int| 0 <= i < s.len() && i != cut implies s[i] != '.' by {
                if i < cut {
                    assert(s[i] == tag[i]);
                } else {
                    assert(s[i] == digits[i - cut - 1]);
                    assert(is_digit(digits[i - cut - 1]));
                }
            }
            assert forall|from: int, to: int| #[trigger] is_part(s, from, to) implies is_identifier(
                s.subrange(from, to),
                true,
            ) by {
                if from == 0 {
                    assert(to == cut);
                    assert(s.subrange(from, to) =~= tag);
                } else {
                    assert(from == cut + 1);
                    assert(to == s.len());
                    assert(s.subrange(from, to) =~= digits);
                }
            }
        },
    }
}

/// A text in normal form writes the version that its numbers, its tag and its counter
/// make up.
pub proof fn lemma_writes_tagged(
    major: u64,
    minor: u64,
    patch: u64,
    tag: Seq<char>,
    counter: Option<nat>,
)
    requires
        is_known_tag(tag),
        counter matches Some(n) ==> n <= u64::MAX,
    ensures
        writes(
            core_text(major as nat, minor as nat, patch as nat) + "-"@ + tagged_pre(tag, counter),
            VersionView {
                major: major as nat,
                minor: minor as nat,
                patch: patch as nat,
                pre: tagged_pre(tag, counter),
                build: Seq::empty(),
            },
        ),
{
    reveal_strlit("-");
    reveal_strlit(".");
    reveal_strlit("alpha");
    reveal_strlit("beta");
    reveal_strlit("rc");
    let w = VersionView {
        major: major as nat,
        minor: minor as nat,
        patch: patch as nat,
        pre: tagged_pre(tag, counter),
        build: Seq::empty(),
    };
    let text = core_text(major as nat, minor as nat, patch as nat) + "-"@ + tagged_pre(
        tag,
        counter,
    );
    lemma_tagged_identifiers(tag, counter);
    lemma_core_len(major, minor, patch);
    if counter is Some {
        lemma_decimal_len_u64(counter->0);
    }
    assert(w.text() =~= text);
}

} // verus!
