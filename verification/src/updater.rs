//! Telling whether a published version is newer than this one.

use vstd::prelude::*;
use vstd::slice::slice_subrange;

use crate::parse;
use crate::text;

verus! {

broadcast use vstd::slice::group_slice_axioms;

/// A version number.
#[derive(Debug, Clone, Copy, PartialEq, Eq, Structural)]
pub struct Version {
    pub major: u32,
    pub minor: u32,
    pub patch: u32,
}

/// The number in one part of a version: the whole part, or else the digits that it starts with, so
/// that a suffix such as `-rc1` does no harm.
pub open spec fn component_of(part: Seq<char>) -> Option<nat> {
    match parse::number_in(part, u32::MAX as nat) {
        Some(n) => Some(n),
        None => parse::number_in(parse::leading_digits(part), u32::MAX as nat),
    }
}

/// The number in one part of a version.
pub fn parse_version_component(part: &[char]) -> (value: Option<u32>)
    ensures
        match component_of(part@) {
            Some(n) => value == Some(n as u32) && n <= u32::MAX,
            None => value is None,
        },
{
    if let Some(n) = parse::parse_number(part, u32::MAX as u64) {
        return Some(n as u32);
    }
    match parse::parse_number(parse::digits_at_start(part), u32::MAX as u64) {
        Some(n) => Some(n as u32),
        None => None,
    }
}

/// A version without the `v` that may stand before it.
pub open spec fn bare(s: Seq<char>) -> Seq<char> {
    if s.len() > 0 && s[0] == 'v' {
        s.skip(1)
    } else {
        s
    }
}

/// The version that a text writes: three parts with dots between them.
pub open spec fn version_of(s: Seq<char>) -> Option<Version> {
    let parts = parse::pieces(bare(s), seq!['.']);
    if parts.len() != 3 {
        None
    } else {
        match (component_of(parts[0]), component_of(parts[1]), component_of(parts[2])) {
            (Some(major), Some(minor), Some(patch)) => Some(
                Version { major: major as u32, minor: minor as u32, patch: patch as u32 },
            ),
            _ => None,
        }
    }
}

/// The version that the text writes.
pub fn parse_version(s: &str) -> (version: Option<Version>)
    ensures
        version == version_of(s@),
{
    let all = text::letters(s);
    let start: usize = if all.len() > 0 && all[0] == 'v' { 1 } else { 0 };
    let number = slice_subrange(&all, start, all.len());
    assert(number@ =~= bare(s@));
    let dot: [char; 1] = ['.'];
    assert(dot@ =~= seq!['.']);
    let parts = parse::split(number, &dot);
    assert(parse::contents(parts@).len() == parts@.len());
    if parts.len() != 3 {
        return None;
    }
    assert(parse::contents(parts@)[0] == parts@[0]@);
    assert(parse::contents(parts@)[1] == parts@[1]@);
    assert(parse::contents(parts@)[2] == parts@[2]@);
    match (
        parse_version_component(&parts[0]),
        parse_version_component(&parts[1]),
        parse_version_component(&parts[2]),
    ) {
        (Some(major), Some(minor), Some(patch)) => Some(Version { major, minor, patch }),
        _ => None,
    }
}

/// One version comes after another: the first part in which they differ decides.
pub open spec fn comes_after(latest: Version, current: Version) -> bool {
    ||| latest.major > current.major
    ||| latest.major == current.major && latest.minor > current.minor
    ||| latest.major == current.major && latest.minor == current.minor && latest.patch
        > current.patch
}

/// Whether one version is newer than another.
pub fn is_newer(latest: &Version, current: &Version) -> (newer: bool)
    ensures
        newer == comes_after(*latest, *current),
{
    if latest.major != current.major {
        latest.major > current.major
    } else if latest.minor != current.minor {
        latest.minor > current.minor
    } else {
        latest.patch > current.patch
    }
}

/// What the newest published version means for this one.
#[derive(Debug, Clone, Copy, PartialEq, Eq, Structural)]
pub enum UpdateCheck {
    /// There is a newer version to point out. It is never downloaded by itself.
    Available,
    /// This version is as new.
    UpToDate,
    /// The published version could not be understood.
    UnreadableRemote,
    /// The own version could not be understood.
    UnreadableLocal,
}

/// What the newest published version means for this one.
pub open spec fn check_of(tag_name: Seq<char>, own_version: Seq<char>) -> UpdateCheck {
    match (version_of(tag_name), version_of(own_version)) {
        (None, _) => UpdateCheck::UnreadableRemote,
        (Some(_), None) => UpdateCheck::UnreadableLocal,
        (Some(latest), Some(current)) => if comes_after(latest, current) {
            UpdateCheck::Available
        } else {
            UpdateCheck::UpToDate
        },
    }
}

/// Compares the tag of the newest published version with the own version.
pub fn check_for_updates(tag_name: &str, own_version: &str) -> (check: UpdateCheck)
    ensures
        check == (match (version_of(tag_name@), version_of(own_version@)) {
            (None, _) => UpdateCheck::UnreadableRemote,
            (Some(_), None) => UpdateCheck::UnreadableLocal,
            (Some(latest), Some(current)) => if comes_after(latest, current) {
                UpdateCheck::Available
            } else {
                UpdateCheck::UpToDate
            },
        }),
        check == check_of(tag_name@, own_version@),
{
    let latest = match parse_version(tag_name) {
        Some(version) => version,
        None => {
            return UpdateCheck::UnreadableRemote;
        },
    };
    let current = match parse_version(own_version) {
        Some(version) => version,
        None => {
            return UpdateCheck::UnreadableLocal;
        },
    };
    if is_newer(&latest, &current) {
        UpdateCheck::Available
    } else {
        UpdateCheck::UpToDate
    }
}

/// Of two different versions exactly one is newer, and no version is newer than itself.
pub proof fn law_versions_are_ordered(a: Version, b: Version)
    ensures
        !comes_after(a, a),
        a != b ==> (comes_after(a, b) <==> !comes_after(b, a)),
{
}

/// What is newer than a newer version is newer.
pub proof fn law_newer_is_transitive(a: Version, b: Version, c: Version)
    requires
        comes_after(a, b),
        comes_after(b, c),
    ensures
        comes_after(a, c),
{
}

/// A leading `v` makes no difference to a version that does not start with one.
pub proof fn law_v_prefix_is_optional(s: Seq<char>)
    requires
        s.len() > 0 ==> s[0] != 'v',
    ensures
        version_of(seq!['v'] + s) == version_of(s),
{
    assert(bare(seq!['v'] + s) =~= s);
    assert(bare(s) == s);
}

/// A version that is written as three numbers with dots between them is read back, with a `v` before
/// it or not, and with something behind it that does not start with a digit and holds no dot.
pub proof fn law_written_versions_are_read_back(version: Version, suffix: Seq<char>)
    requires
        suffix.len() > 0 ==> !('0' <= suffix[0] <= '9'),
        !suffix.contains('.'),
    ensures
        ({
            let written = text::decimal(version.major as nat) + seq!['.'] + (text::decimal(
                version.minor as nat,
            ) + seq!['.'] + (text::decimal(version.patch as nat) + suffix));
            &&& version_of(written) == Some(version)
            &&& version_of(seq!['v'] + written) == Some(version)
        }),
{
    let a = text::decimal(version.major as nat);
    let b = text::decimal(version.minor as nat);
    let c = text::decimal(version.patch as nat) + suffix;
    let written = a + seq!['.'] + (b + seq!['.'] + c);
    lemma_component(version.major, Seq::empty());
    lemma_component(version.minor, Seq::empty());
    lemma_component(version.patch, suffix);
    assert(a + Seq::<char>::empty() =~= a);
    assert(b + Seq::<char>::empty() =~= b);
    lemma_version_of_parts(a, b, c, version);
}

proof fn lemma_version_of_parts(a: Seq<char>, b: Seq<char>, c: Seq<char>, version: Version)
    requires
        !a.contains('.'),
        !b.contains('.'),
        !c.contains('.'),
        a.len() > 0,
        a[0] != 'v',
        component_of(a) == Some(version.major as nat),
        component_of(b) == Some(version.minor as nat),
        component_of(c) == Some(version.patch as nat),
    ensures
        version_of(a + seq!['.'] + (b + seq!['.'] + c)) == Some(version),
        version_of(seq!['v'] + (a + seq!['.'] + (b + seq!['.'] + c))) == Some(version),
{
    let written = a + seq!['.'] + (b + seq!['.'] + c);
    assert(written[0] == a[0]);
    let parts = parse::pieces(written, seq!['.']);
    assert(parts == seq![a, b, c]) by {
        lemma_three_parts(a, b, c);
    }
    assert(parts.len() == 3 && parts[0] == a && parts[1] == b && parts[2] == c);
    assert(bare(written) == written);
    assert(version_of(written) == Some(version));
    assert(version_of(seq!['v'] + written) == version_of(written)) by {
        law_v_prefix_is_optional(written);
    }
}

proof fn lemma_three_parts(a: Seq<char>, b: Seq<char>, c: Seq<char>)
    requires
        !a.contains('.'),
        !b.contains('.'),
        !c.contains('.'),
    ensures
        parse::pieces(a + seq!['.'] + (b + seq!['.'] + c), seq!['.']) == seq![a, b, c],
{
    parse::law_the_first_piece_ends_at_the_separator(a, '.', b + seq!['.'] + c);
    parse::law_the_first_piece_ends_at_the_separator(b, '.', c);
    parse::law_the_first_piece_ends_at_the_separator(c, '.', Seq::empty());
    assert(seq![a] + (seq![b] + seq![c]) =~= seq![a, b, c]);
}

proof fn lemma_component(value: u32, suffix: Seq<char>)
    requires
        suffix.len() > 0 ==> !('0' <= suffix[0] <= '9'),
        !suffix.contains('.'),
    ensures
        component_of(text::decimal(value as nat) + suffix) == Some(value as nat),
        !(text::decimal(value as nat) + suffix).contains('.'),
        text::decimal(value as nat).len() > 0,
        text::decimal(value as nat)[0] != 'v',
{
    let digits = text::decimal(value as nat);
    let all = digits + suffix;
    parse::law_written_numbers_are_read_back(value as nat, u32::MAX as nat);
    parse::law_leading_digits_end_at_the_first_other(digits, suffix);
    assert(parse::is_digit(digits[0]));
    if suffix.len() > 0 {
        assert(all[digits.len() as int] == suffix[0]);
        assert(all[0] == digits[0]);
        parse::law_other_texts_are_no_numbers(all, digits.len() as int, u32::MAX as nat);
    } else {
        assert(all =~= digits);
    }
    if all.contains('.') {
        let k = choose|k: int| 0 <= k < all.len() && all[k] == '.';
        if k < digits.len() {
            assert(parse::is_digit(digits[k]));
        } else {
            assert(suffix[k - digits.len()] == '.');
        }
    }
}

/// A larger number in a part makes a version newer, whatever stands behind it, and what stands before
/// it the same.
pub proof fn law_larger_parts_make_a_version_newer(a: Version, b: Version)
    ensures
        a.major > b.major ==> comes_after(a, b),
        a.major == b.major && a.minor > b.minor ==> comes_after(a, b),
        a.major == b.major && a.minor == b.minor && a.patch > b.patch ==> comes_after(a, b),
        comes_after(a, b) ==> a.major >= b.major,
{
}

/// A version as it is written.
pub open spec fn written(version: Version) -> Seq<char> {
    text::decimal(version.major as nat) + seq!['.'] + (text::decimal(version.minor as nat) + seq!['.']
        + (text::decimal(version.patch as nat) + Seq::empty()))
}

/// A release is pointed out where its tag writes a larger version than the own one: by the first of the
/// three numbers in which they differ. With or without a `v`, and never for the own version itself.
pub proof fn law_newer_releases_are_pointed_out(latest: Version, current: Version)
    ensures
        ({
            let newer = latest.major > current.major || (latest.major == current.major && (
            latest.minor > current.minor || (latest.minor == current.minor && latest.patch
                > current.patch)));
            let check = if newer { UpdateCheck::Available } else { UpdateCheck::UpToDate };
            &&& check_of(written(latest), written(current)) == check
            &&& check_of(seq!['v'] + written(latest), written(current)) == check
            &&& check_of(written(current), written(current)) == UpdateCheck::UpToDate
            &&& check_of(Seq::empty(), written(current)) == UpdateCheck::UnreadableRemote
            &&& check_of(written(latest), Seq::empty()) == UpdateCheck::UnreadableLocal
        }),
{
    law_written_versions_are_read_back(latest, Seq::empty());
    law_written_versions_are_read_back(current, Seq::empty());
    lemma_nothing_is_no_version();
}

proof fn lemma_nothing_is_no_version()
    ensures
        version_of(Seq::empty()) is None,
{
    parse::law_the_first_piece_ends_at_the_separator(Seq::empty(), '.', Seq::empty());
}

} // verus!
