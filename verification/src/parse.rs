//! Taking texts apart: blanks, letter case, pieces between separators, numbers.

use vstd::prelude::*;
use vstd::slice::slice_subrange;

use crate::text;

verus! {

broadcast use vstd::slice::group_slice_axioms;

/// The character is white space, as Unicode has it.
pub open spec fn white_space(c: char) -> bool {
    ||| '\u{9}' <= c <= '\u{d}'
    ||| c == ' '
    ||| c == '\u{85}'
    ||| c == '\u{a0}'
    ||| c == '\u{1680}'
    ||| '\u{2000}' <= c <= '\u{200a}'
    ||| c == '\u{2028}'
    ||| c == '\u{2029}'
    ||| c == '\u{202f}'
    ||| c == '\u{205f}'
    ||| c == '\u{3000}'
}

/// Whether the character is white space.
pub fn is_white_space(c: char) -> (yes: bool)
    ensures
        yes == white_space(c),
{
    ('\u{9}' <= c && c <= '\u{d}') || c == ' ' || c == '\u{85}' || c == '\u{a0}' || c == '\u{1680}'
        || ('\u{2000}' <= c && c <= '\u{200a}') || c == '\u{2028}' || c == '\u{2029}' || c
        == '\u{202f}' || c == '\u{205f}' || c == '\u{3000}'
}

/// A text without the white space at its start.
pub open spec fn trimmed_start(s: Seq<char>) -> Seq<char>
    decreases s.len(),
{
    if s.len() > 0 && white_space(s[0]) {
        trimmed_start(s.skip(1))
    } else {
        s
    }
}

/// A text without the white space at its end.
pub open spec fn trimmed_end(s: Seq<char>) -> Seq<char>
    decreases s.len(),
{
    if s.len() > 0 && white_space(s.last()) {
        trimmed_end(s.drop_last())
    } else {
        s
    }
}

/// A text without the white space around it.
pub open spec fn trimmed(s: Seq<char>) -> Seq<char> {
    trimmed_end(trimmed_start(s))
}

/// The text without the white space around it.
pub fn trim(s: &[char]) -> (inner: &[char])
    ensures
        inner@ == trimmed(s@),
{
    let mut from: usize = 0;
    assert(s@.skip(0) =~= s@);
    while from < s.len() && is_white_space(s[from])
        invariant
            from <= s@.len(),
            trimmed_start(s@) == trimmed_start(s@.skip(from as int)),
        decreases s@.len() - from,
    {
        assert(s@.skip(from as int).skip(1) =~= s@.skip(from as int + 1));
        from = from + 1;
    }
    let ghost rest = s@.skip(from as int);
    assert(trimmed_start(s@) == rest);
    let mut to: usize = s.len();
    assert(s@.subrange(from as int, to as int) =~= rest);
    while to > from && is_white_space(s[to - 1])
        invariant
            from <= to <= s@.len(),
            trimmed_end(rest) == trimmed_end(s@.subrange(from as int, to as int)),
        decreases to,
    {
        assert(s@.subrange(from as int, to as int).drop_last() =~= s@.subrange(
            from as int,
            to - 1,
        ));
        to = to - 1;
    }
    slice_subrange(s, from, to)
}

/// The lower case of an ASCII letter; any other character is its own lower case.
pub open spec fn lower(c: char) -> char {
    if 'A' <= c <= 'Z' {
        ((c as u8) + 32) as char
    } else {
        c
    }
}

/// The lower case of an ASCII letter.
pub fn to_lower(c: char) -> (small: char)
    ensures
        small == lower(c),
{
    if 'A' <= c && c <= 'Z' {
        ((c as u8) + 32) as char
    } else {
        c
    }
}

/// A text with its ASCII letters in lower case.
pub open spec fn lowered(s: Seq<char>) -> Seq<char> {
    s.map_values(|c: char| lower(c))
}

/// The text with its ASCII letters in lower case.
pub fn to_lowered(s: &[char]) -> (small: Vec<char>)
    ensures
        small@ == lowered(s@),
{
    let mut small: Vec<char> = Vec::new();
    let mut i: usize = 0;
    while i < s.len()
        invariant
            i <= s@.len(),
            small@ =~= lowered(s@).take(i as int),
        decreases s@.len() - i,
    {
        small.push(to_lower(s[i]));
        i = i + 1;
    }
    assert(small@ =~= lowered(s@));
    small
}

/// Whether two texts are the same but for the case of ASCII letters.
pub fn same_ignoring_case(a: &[char], b: &[char]) -> (same: bool)
    ensures
        same == (lowered(a@) == lowered(b@)),
{
    if a.len() != b.len() {
        assert(lowered(a@).len() != lowered(b@).len());
        return false;
    }
    let mut i: usize = 0;
    while i < a.len()
        invariant
            i <= a@.len(),
            a@.len() == b@.len(),
            forall|k: int| 0 <= k < i ==> lower(#[trigger] a@[k]) == lower(b@[k]),
        decreases a@.len() - i,
    {
        if to_lower(a[i]) != to_lower(b[i]) {
            assert(lowered(a@)[i as int] != lowered(b@)[i as int]);
            return false;
        }
        i = i + 1;
    }
    assert(lowered(a@) =~= lowered(b@));
    true
}

/// The character is a decimal digit.
pub open spec fn is_digit(c: char) -> bool {
    '0' <= c <= '9'
}

/// Every character is a decimal digit.
pub open spec fn all_digits(s: Seq<char>) -> bool {
    forall|i: int| 0 <= i < s.len() ==> is_digit(#[trigger] s[i])
}

/// Whether every character is a decimal digit.
pub fn has_digits_only(s: &[char]) -> (yes: bool)
    ensures
        yes == all_digits(s@),
{
    let mut i: usize = 0;
    while i < s.len()
        invariant
            i <= s@.len(),
            forall|k: int| 0 <= k < i ==> is_digit(#[trigger] s@[k]),
        decreases s@.len() - i,
    {
        if !('0' <= s[i] && s[i] <= '9') {
            assert(!is_digit(s@[i as int]));
            return false;
        }
        i = i + 1;
    }
    true
}

/// The digits that a text starts with.
pub open spec fn leading_digits(s: Seq<char>) -> Seq<char>
    decreases s.len(),
{
    if s.len() > 0 && is_digit(s[0]) {
        seq![s[0]] + leading_digits(s.skip(1))
    } else {
        Seq::empty()
    }
}

/// The digits that the text starts with.
pub fn digits_at_start(s: &[char]) -> (digits: &[char])
    ensures
        digits@ == leading_digits(s@),
{
    let mut to: usize = 0;
    assert(s@.skip(0) =~= s@);
    assert(leading_digits(s@) =~= s@.take(0) + leading_digits(s@.skip(0)));
    while to < s.len() && '0' <= s[to] && s[to] <= '9'
        invariant
            to <= s@.len(),
            leading_digits(s@) == s@.take(to as int) + leading_digits(s@.skip(to as int)),
        decreases s@.len() - to,
    {
        assert(s@.skip(to as int).skip(1) =~= s@.skip(to as int + 1));
        assert(s@.take(to as int) + (seq![s@[to as int]] + leading_digits(s@.skip(to as int + 1)))
            =~= s@.take(to as int + 1) + leading_digits(s@.skip(to as int + 1)));
        to = to + 1;
    }
    assert(leading_digits(s@) =~= s@.take(to as int));
    assert(s@.subrange(0, to as int) =~= s@.take(to as int));
    slice_subrange(s, 0, to)
}

/// The digits that a text ends in.
pub open spec fn trailing_digits(s: Seq<char>) -> Seq<char>
    decreases s.len(),
{
    if s.len() > 0 && is_digit(s.last()) {
        trailing_digits(s.drop_last()).push(s.last())
    } else {
        Seq::empty()
    }
}

/// The digits that the text ends in.
pub fn digits_at_end(s: &[char]) -> (digits: &[char])
    ensures
        digits@ == trailing_digits(s@),
{
    let count: usize = s.len();
    let mut from: usize = count;
    assert(s@.take(count as int) =~= s@);
    assert(trailing_digits(s@) =~= trailing_digits(s@.take(count as int)) + s@.skip(count as int));
    while from > 0 && '0' <= s[from - 1] && s[from - 1] <= '9'
        invariant
            from <= s@.len(),
            trailing_digits(s@) == trailing_digits(s@.take(from as int)) + s@.skip(from as int),
        decreases from,
    {
        assert(s@.take(from as int).drop_last() =~= s@.take(from - 1));
        assert(trailing_digits(s@.take(from - 1)).push(s@[from - 1]) + s@.skip(from as int)
            =~= trailing_digits(s@.take(from - 1)) + s@.skip(from - 1));
        from = from - 1;
    }
    assert(trailing_digits(s@) =~= s@.skip(from as int));
    assert(s@.subrange(from as int, count as int) =~= s@.skip(from as int));
    slice_subrange(s, from, count)
}

/// The number that decimal digits write.
pub open spec fn value_of(digits: Seq<char>) -> nat
    decreases digits.len(),
{
    if digits.len() == 0 {
        0
    } else {
        value_of(digits.drop_last()) * 10 + (digits.last() as nat - '0' as nat) as nat
    }
}

/// The number that a text writes in decimal, with or without a plus sign, where it is one of at
/// most `max`.
pub open spec fn number_in(s: Seq<char>, max: nat) -> Option<nat> {
    let digits = if s.len() > 0 && s[0] == '+' {
        s.skip(1)
    } else {
        s
    };
    if digits.len() > 0 && all_digits(digits) && value_of(digits) <= max {
        Some(value_of(digits))
    } else {
        None
    }
}

/// More digits never write a smaller number.
proof fn lemma_prefix_is_smaller(digits: Seq<char>, n: int)
    requires
        0 <= n <= digits.len(),
        all_digits(digits),
    ensures
        value_of(digits.take(n)) <= value_of(digits),
    decreases digits.len() - n,
{
    if n < digits.len() {
        assert(digits.take(n + 1).drop_last() =~= digits.take(n));
        assert(digits.take(n + 1).last() == digits[n]);
        lemma_prefix_is_smaller(digits, n + 1);
    } else {
        assert(digits.take(n) =~= digits);
    }
}

/// The number that the text writes in decimal, where it is one of at most `max`.
pub fn parse_number(s: &[char], max: u64) -> (value: Option<u64>)
    ensures
        match number_in(s@, max as nat) {
            Some(n) => value == Some(n as u64) && n <= max,
            None => value is None,
        },
{
    let start: usize = if s.len() > 0 && s[0] == '+' { 1 } else { 0 };
    let digits = slice_subrange(s, start, s.len());
    assert(digits@ =~= s@.skip(start as int));
    assert(s@.skip(0) =~= s@);
    if digits.len() == 0 || !has_digits_only(digits) {
        return None;
    }
    let mut value: u64 = 0;
    let mut i: usize = 0;
    while i < digits.len()
        invariant
            i <= digits@.len(),
            all_digits(digits@),
            value == value_of(digits@.take(i as int)),
            value <= max,
            digits@.len() > 0,
            digits@ == (if s@.len() > 0 && s@[0] == '+' { s@.skip(1) } else { s@ }),
        decreases digits@.len() - i,
    {
        assert(is_digit(digits@[i as int]));
        let d: u64 = (digits[i] as u64) - ('0' as u64);
        proof {
            assert(digits@.take(i as int + 1).drop_last() =~= digits@.take(i as int));
            lemma_prefix_is_smaller(digits@, i as int + 1);
        }
        if value > max / 10 {
            return None;
        }
        let tens: u64 = value * 10;
        if d > max - tens {
            return None;
        }
        value = tens + d;
        i = i + 1;
    }
    assert(digits@.take(i as int) =~= digits@);
    Some(value)
}

/// The first place where `part` stands in `s`.
pub open spec fn is_first(s: Seq<char>, part: Seq<char>, at: int) -> bool {
    &&& text::text_at(s, at, part)
    &&& forall|p: int| p < at ==> !#[trigger] text::text_at(s, p, part)
}

/// The first place where `part` stands in `s`, if it does.
pub open spec fn first_of(s: Seq<char>, part: Seq<char>) -> Option<int> {
    if text::contains_text(s, part) {
        Some(choose|at: int| is_first(s, part, at))
    } else {
        None
    }
}

/// There is only one first place.
pub proof fn lemma_first_is_unique(s: Seq<char>, part: Seq<char>, at: int)
    requires
        is_first(s, part, at),
    ensures
        first_of(s, part) == Some(at),
{
    assert(text::contains_text(s, part));
    let other = choose|at: int| is_first(s, part, at);
    assert(is_first(s, part, other));
    assert(text::text_at(s, other, part));
}

/// The first place where `part` stands in the text.
pub fn find(s: &[char], part: &[char]) -> (at: Option<usize>)
    ensures
        match first_of(s@, part@) {
            Some(place) => at == Some(place as usize) && is_first(s@, part@, place) && 0 <= place
                && place + part@.len() <= s@.len(),
            None => at is None,
        },
{
    let mut at: usize = 0;
    while at < s.len()
        invariant
            at <= s@.len(),
            forall|p: int| p < at ==> !#[trigger] text::text_at(s@, p, part@),
        decreases s@.len() - at,
    {
        if text::stands_at(s, at, part) {
            proof {
                lemma_first_is_unique(s@, part@, at as int);
            }
            return Some(at);
        }
        at = at + 1;
    }
    if text::stands_at(s, at, part) {
        proof {
            lemma_first_is_unique(s@, part@, at as int);
        }
        return Some(at);
    }
    assert forall|p: int| !#[trigger] text::text_at(s@, p, part@) by {
        assert(p > at ==> !text::text_at(s@, p, part@));
    }
    None
}

/// Whether the text starts with `part`.
pub fn begins(s: &[char], part: &str) -> (yes: bool)
    ensures
        yes == text::is_prefix(part@, s@),
{
    let head = text::letters(part);
    assert(part@.len() <= s@.len() ==> s@.subrange(0, part@.len() as int) =~= s@.take(
        part@.len() as int,
    ));
    text::stands_at(s, 0, &head)
}

/// Whether `part` stands somewhere in the text.
pub fn holds(s: &[char], part: &str) -> (yes: bool)
    ensures
        yes == text::contains_text(s@, part@),
{
    let wanted = text::letters(part);
    find(s, &wanted).is_some()
}

/// Whether the text is `other`.
pub fn is_text(s: &[char], other: &str) -> (yes: bool)
    ensures
        yes == (s@ == other@),
{
    let wanted = text::letters(other);
    if s.len() != wanted.len() {
        return false;
    }
    let yes = text::stands_at(s, 0, &wanted);
    assert(s@.subrange(0, s@.len() as int) =~= s@);
    yes
}

/// The pieces of a text between separators.
pub open spec fn pieces(s: Seq<char>, separator: Seq<char>) -> Seq<Seq<char>>
    decreases s.len(),
{
    match first_of(s, separator) {
        Some(at) => if separator.len() > 0 && 0 <= at && at + separator.len() <= s.len() {
            seq![s.take(at)] + pieces(s.skip(at + separator.len() as int), separator)
        } else {
            seq![s]
        },
        None => seq![s],
    }
}

/// Texts as sequences of characters.
pub open spec fn contents(list: Seq<Vec<char>>) -> Seq<Seq<char>> {
    Seq::new(list.len(), |i: int| list[i]@)
}

/// A copy of a text.
pub fn copy_of(s: &[char]) -> (copy: Vec<char>)
    ensures
        copy@ == s@,
{
    let mut copy: Vec<char> = Vec::new();
    let mut i: usize = 0;
    while i < s.len()
        invariant
            i <= s@.len(),
            copy@ =~= s@.take(i as int),
        decreases s@.len() - i,
    {
        copy.push(s[i]);
        i = i + 1;
    }
    assert(copy@ =~= s@);
    copy
}

/// The pieces of the text between separators.
pub fn split(s: &[char], separator: &[char]) -> (list: Vec<Vec<char>>)
    requires
        separator@.len() > 0,
    ensures
        contents(list@) == pieces(s@, separator@),
        list@.len() >= 1,
{
    let mut list: Vec<Vec<char>> = Vec::new();
    let mut from: usize = 0;
    assert(s@.skip(0) =~= s@);
    assert(contents(list@) + pieces(s@, separator@) =~= pieces(s@, separator@));
    loop
        invariant
            from <= s@.len(),
            separator@.len() > 0,
            pieces(s@, separator@) == contents(list@) + pieces(s@.skip(from as int), separator@),
        decreases s@.len() - from,
    {
        let rest = slice_subrange(s, from, s.len());
        assert(rest@ =~= s@.skip(from as int));
        match find(rest, separator) {
            Some(at) => {
                let piece = copy_of(slice_subrange(rest, 0, at));
                let ghost before = list@;
                list.push(piece);
                let next: usize = from + at + separator.len();
                proof {
                    assert(piece@ =~= rest@.take(at as int));
                    assert(rest@.skip(at + separator@.len()) =~= s@.skip(next as int));
                    assert(contents(list@) =~= contents(before).push(piece@));
                    assert(contents(list@) + pieces(s@.skip(next as int), separator@) =~= contents(
                        before,
                    ) + (seq![piece@] + pieces(s@.skip(next as int), separator@)));
                }
                from = next;
            },
            None => {
                let piece = copy_of(rest);
                let ghost before = list@;
                list.push(piece);
                assert(contents(list@) =~= contents(before) + seq![rest@]);
                return list;
            },
        }
    }
}

/// A text in which every `from` is turned into `to`.
pub open spec fn replaced(s: Seq<char>, from: char, to: char) -> Seq<char> {
    s.map_values(|c: char| if c == from { to } else { c })
}

/// The text in which every `from` is turned into `to`.
pub fn replace(s: &[char], from: char, to: char) -> (turned: Vec<char>)
    ensures
        turned@ == replaced(s@, from, to),
{
    let mut turned: Vec<char> = Vec::new();
    let mut i: usize = 0;
    while i < s.len()
        invariant
            i <= s@.len(),
            turned@ =~= replaced(s@, from, to).take(i as int),
        decreases s@.len() - i,
    {
        turned.push(if s[i] == from { to } else { s[i] });
        i = i + 1;
    }
    assert(turned@ =~= replaced(s@, from, to));
    turned
}

/// Splitting a text loses nothing: the pieces with the separators between them are the text.
pub proof fn law_pieces_make_up_the_text(s: Seq<char>, separator: Seq<char>)
    ensures
        text::joined(pieces(s, separator), separator) == s,
        pieces(s, separator).len() >= 1,
    decreases s.len(),
{
    if let Some(at) = first_of(s, separator) {
        if separator.len() > 0 && 0 <= at && at + separator.len() <= s.len() {
            let rest = s.skip(at + separator.len() as int);
            law_pieces_make_up_the_text(rest, separator);
            let all = pieces(s, separator);
            assert(all.skip(1) =~= pieces(rest, separator));
            assert(text::contains_text(s, separator));
            lemma_some_first(s, separator);
            assert(text::text_at(s, at, separator));
            assert(s.take(at) + separator + rest =~= s);
            lemma_joined_from_the_front(all, separator);
        }
    }
    if pieces(s, separator).len() == 1 {
        assert(pieces(s, separator)[0] == s);
    }
}

/// The first text of a list, joined with the rest.
proof fn lemma_joined_from_the_front(list: Seq<Seq<char>>, separator: Seq<char>)
    requires
        list.len() >= 2,
    ensures
        text::joined(list, separator) == list[0] + separator + text::joined(
            list.skip(1),
            separator,
        ),
    decreases list.len(),
{
    let rest = list.skip(1);
    if list.len() == 2 {
        assert(text::joined(list.drop_last(), separator) == list[0]);
        assert(text::joined(rest, separator) == list[1]);
    } else {
        lemma_joined_from_the_front(list.drop_last(), separator);
        assert(list.drop_last().skip(1) =~= rest.drop_last());
        assert(text::joined(list, separator) =~= list[0] + separator + text::joined(
            rest,
            separator,
        ));
    }
}

/// Where a text stands somewhere, it stands somewhere first.
proof fn lemma_some_first(s: Seq<char>, part: Seq<char>)
    requires
        text::contains_text(s, part),
    ensures
        exists|at: int| is_first(s, part, at),
{
    let place = choose|at: int| #[trigger] text::text_at(s, at, part);
    lemma_first_up_to(s, part, place);
}

proof fn lemma_first_up_to(s: Seq<char>, part: Seq<char>, place: int)
    requires
        text::text_at(s, place, part),
    ensures
        exists|at: int| is_first(s, part, at),
    decreases place,
{
    if forall|p: int| p < place ==> !#[trigger] text::text_at(s, p, part) {
        assert(is_first(s, part, place));
    } else {
        let p = choose|p: int| p < place && #[trigger] text::text_at(s, p, part);
        lemma_first_up_to(s, part, p);
    }
}

/// Trimming cuts white space off both ends and nothing else: what is left stands in the text, has
/// no white space at its ends, and there was nothing but white space around it.
pub proof fn law_trimming_cuts_white_space_only(s: Seq<char>)
    ensures
        exists|from: int, to: int|
            0 <= from <= to <= s.len() && #[trigger] s.subrange(from, to) == trimmed(s) && (forall|
                k: int,
            |
                0 <= k < from || to <= k < s.len() ==> white_space(#[trigger] s[k])) && (from < to
                ==> !white_space(s[from]) && !white_space(s[to - 1])),
{
    lemma_trimmed_start(s);
    let inner = trimmed_start(s);
    lemma_trimmed_end(inner);
    let from = s.len() - inner.len();
    let to = from + trimmed(s).len();
    assert forall|k: int| 0 <= k < from || to <= k < s.len() implies white_space(#[trigger] s[k]) by {
        if k >= from {
            assert(s[k] == inner[k - from]);
        }
    }
    assert(s.subrange(from, to) =~= trimmed(s)) by {
        assert forall|k: int| 0 <= k < to - from implies s[from + k] == trimmed(s)[k] by {
            assert(inner[k] == s[from + k]);
        }
    }
    if from < to {
        assert(s[from] == inner[0] && s[to - 1] == inner[to - 1 - from]);
        assert(trimmed(s)[0] == inner[0]);
    }
}

proof fn lemma_trimmed_start(s: Seq<char>)
    ensures
        ({
            let inner = trimmed_start(s);
            let from = s.len() - inner.len();
            &&& 0 <= from
            &&& inner == s.skip(from)
            &&& forall|k: int| 0 <= k < from ==> white_space(#[trigger] s[k])
            &&& inner.len() > 0 ==> !white_space(inner[0])
        }),
    decreases s.len(),
{
    if s.len() > 0 && white_space(s[0]) {
        let rest = s.skip(1);
        lemma_trimmed_start(rest);
        let inner = trimmed_start(s);
        let from = s.len() - inner.len();
        assert(inner =~= s.skip(from));
        assert forall|k: int| 0 <= k < from implies white_space(#[trigger] s[k]) by {
            if k > 0 {
                assert(rest[k - 1] == s[k]);
            }
        }
    } else {
        assert(s.skip(0) =~= s);
    }
}

proof fn lemma_trimmed_end(s: Seq<char>)
    ensures
        ({
            let inner = trimmed_end(s);
            &&& inner.len() <= s.len()
            &&& inner == s.take(inner.len() as int)
            &&& forall|k: int| inner.len() <= k < s.len() ==> white_space(#[trigger] s[k])
            &&& inner.len() > 0 ==> !white_space(inner.last())
        }),
    decreases s.len(),
{
    if s.len() > 0 && white_space(s.last()) {
        let rest = s.drop_last();
        lemma_trimmed_end(rest);
        let inner = trimmed_end(s);
        assert(inner =~= s.take(inner.len() as int));
        assert forall|k: int| inner.len() <= k < s.len() implies white_space(#[trigger] s[k]) by {
            if k < rest.len() {
                assert(rest[k] == s[k]);
            }
        }
    } else {
        assert(s.take(s.len() as int) =~= s);
    }
}

/// Among the characters of ASCII, the blank and the control characters from tab to carriage return
/// are white space, and nothing else is.
pub proof fn law_blanks_tabs_and_line_ends_are_white_space(c: char)
    requires
        (c as u32) < 128,
    ensures
        white_space(c) == (c as u32 == 32 || 9 <= c as u32 <= 13),
{
}

/// The capital letters of ASCII become the small ones, in their order, and nothing else changes.
pub proof fn law_capitals_become_small(c: char)
    ensures
        65 <= c as u32 <= 90 ==> lower(c) as u32 == c as u32 + 32,
        !(65 <= c as u32 <= 90) ==> lower(c) == c,
        lower(lower(c)) == lower(c),
{
}

/// A number that is written in decimal is read back, where it is not too large, with a plus sign
/// too.
pub proof fn law_written_numbers_are_read_back(value: nat, max: nat)
    ensures
        number_in(text::decimal(value), max) == if value <= max { Some(value) } else { None },
        number_in(seq!['+'] + text::decimal(value), max) == if value <= max {
            Some(value)
        } else {
            None
        },
        all_digits(text::decimal(value)),
        text::decimal(value).len() > 0,
{
    let digits = text::decimal(value);
    text::law_written_numbers_are_worth_the_number(value, 10);
    assert forall|i: int| 0 <= i < digits.len() implies is_digit(#[trigger] digits[i]) by {
        let letter = digits[i];
        assert(0 <= text::worth_of(letter) < 10);
    }
    lemma_value_is_worth(digits);
    assert((seq!['+'] + digits).skip(1) =~= digits);
    assert(is_digit(digits[0]));
}

proof fn lemma_value_is_worth(digits: Seq<char>)
    requires
        all_digits(digits),
    ensures
        value_of(digits) == text::worth(digits, 10),
    decreases digits.len(),
{
    if digits.len() > 0 {
        let rest = digits.drop_last();
        assert forall|i: int| 0 <= i < rest.len() implies is_digit(#[trigger] rest[i]) by {
            assert(is_digit(digits[i]));
        }
        lemma_value_is_worth(rest);
        assert(is_digit(digits[digits.len() - 1]));
    }
}

/// What holds anything but digits is no number, and neither is nothing.
pub proof fn law_other_texts_are_no_numbers(s: Seq<char>, k: int, max: nat)
    requires
        0 <= k < s.len(),
        !('0' <= s[k] <= '9'),
        k > 0 || s[k] != '+',
    ensures
        number_in(s, max) is None,
        number_in(Seq::empty(), max) is None,
        number_in(seq!['+'], max) is None,
{
    if s[0] == '+' {
        let digits = s.skip(1);
        assert(digits[k - 1] == s[k]);
        assert(!is_digit(digits[k - 1]));
    } else {
        assert(!is_digit(s[k]));
    }
    assert(seq!['+'].skip(1) =~= Seq::<char>::empty());
}

/// The digits that a text starts with are all those up to the first other character.
pub proof fn law_leading_digits_end_at_the_first_other(digits: Seq<char>, rest: Seq<char>)
    requires
        all_digits(digits),
        rest.len() > 0 ==> !('0' <= rest[0] <= '9'),
    ensures
        leading_digits(digits + rest) == digits,
    decreases digits.len(),
{
    let s = digits + rest;
    if digits.len() == 0 {
        assert(s =~= rest);
    } else {
        let tail = digits.skip(1);
        assert forall|i: int| 0 <= i < tail.len() implies is_digit(#[trigger] tail[i]) by {
            assert(is_digit(digits[i + 1]));
        }
        law_leading_digits_end_at_the_first_other(tail, rest);
        assert(is_digit(digits[0]));
        assert(s.skip(1) =~= tail + rest);
        assert(seq![s[0]] + tail =~= digits);
    }
}

/// The digits that a text ends in are all those behind the last other character.
pub proof fn law_trailing_digits_start_behind_the_last_other(rest: Seq<char>, digits: Seq<char>)
    requires
        all_digits(digits),
        rest.len() > 0 ==> !('0' <= rest.last() <= '9'),
    ensures
        trailing_digits(rest + digits) == digits,
    decreases digits.len(),
{
    let s = rest + digits;
    if digits.len() == 0 {
        assert(s =~= rest);
    } else {
        let head = digits.drop_last();
        assert forall|i: int| 0 <= i < head.len() implies is_digit(#[trigger] head[i]) by {
            assert(is_digit(digits[i]));
        }
        law_trailing_digits_start_behind_the_last_other(rest, head);
        assert(is_digit(digits[digits.len() - 1]));
        assert(s.drop_last() =~= rest + head);
        assert(head.push(s.last()) =~= digits);
    }
}

/// A text in front of a separator that it does not hold is the first piece.
pub proof fn law_the_first_piece_ends_at_the_separator(
    first: Seq<char>,
    separator: char,
    rest: Seq<char>,
)
    requires
        !first.contains(separator),
    ensures
        pieces(first + seq![separator] + rest, seq![separator]) == seq![first] + pieces(
            rest,
            seq![separator],
        ),
        pieces(first, seq![separator]) == seq![first],
{
    let mark = seq![separator];
    let s = first + mark + rest;
    let at = first.len() as int;
    assert(s.subrange(at, at + 1) =~= mark);
    assert forall|p: int| p < at implies !#[trigger] text::text_at(s, p, mark) by {
        if text::text_at(s, p, mark) {
            assert(s.subrange(p, p + 1)[0] == mark[0]);
            assert(first[p] == separator);
        }
    }
    lemma_first_is_unique(s, mark, at);
    assert(s.take(at) =~= first);
    assert(s.skip(at + 1) =~= rest);
    assert(!text::contains_text(first, mark)) by {
        if text::contains_text(first, mark) {
            let p = choose|p: int| #[trigger] text::text_at(first, p, mark);
            assert(first.subrange(p, p + 1)[0] == mark[0]);
            assert(first[p] == separator);
        }
    }
}

/// The pieces of two texts with a separator between them are those of the one and then those of the
/// other.
pub proof fn law_pieces_follow_each_other(a: Seq<char>, separator: char, b: Seq<char>)
    ensures
        pieces(a + seq![separator] + b, seq![separator]) == pieces(a, seq![separator]) + pieces(
            b,
            seq![separator],
        ),
    decreases a.len(),
{
    let mark = seq![separator];
    if a.contains(separator) {
        a.index_of_first_ensures(separator);
        let k = a.index_of_first(separator)->0;
        let (first, rest) = (a.take(k), a.skip(k + 1));
        assert(!first.contains(separator)) by {
            if first.contains(separator) {
                let j = choose|j: int| 0 <= j < first.len() && first[j] == separator;
                assert(a[j] == separator);
            }
        }
        assert(a =~= first + mark + rest);
        assert(a + mark + b =~= first + mark + (rest + mark + b));
        law_the_first_piece_ends_at_the_separator(first, separator, rest);
        law_the_first_piece_ends_at_the_separator(first, separator, rest + mark + b);
        law_pieces_follow_each_other(rest, separator, b);
        assert(seq![first] + (pieces(rest, mark) + pieces(b, mark)) =~= seq![first] + pieces(
            rest,
            mark,
        ) + pieces(b, mark));
    } else {
        law_the_first_piece_ends_at_the_separator(a, separator, b);
    }
}

/// No piece holds the separator.
pub proof fn law_pieces_hold_no_separator(s: Seq<char>, separator: char, k: int)
    requires
        0 <= k < pieces(s, seq![separator]).len(),
    ensures
        !pieces(s, seq![separator])[k].contains(separator),
    decreases s.len(),
{
    let mark = seq![separator];
    if s.contains(separator) {
        s.index_of_first_ensures(separator);
        let at = s.index_of_first(separator)->0;
        let (first, rest) = (s.take(at), s.skip(at + 1));
        assert(!first.contains(separator)) by {
            if first.contains(separator) {
                let j = choose|j: int| 0 <= j < first.len() && first[j] == separator;
                assert(s[j] == separator);
            }
        }
        assert(s =~= first + mark + rest);
        law_the_first_piece_ends_at_the_separator(first, separator, rest);
        if k > 0 {
            law_pieces_hold_no_separator(rest, separator, k - 1);
        }
    } else {
        law_the_first_piece_ends_at_the_separator(s, separator, Seq::empty());
    }
}

/// Beyond ASCII, the characters that Unicode has as white space are white space, and no others.
pub proof fn law_other_white_space_is_that_of_unicode(c: char)
    requires
        (c as u32) >= 128,
    ensures
        white_space(c) == (c as u32 == 0x85 || c as u32 == 0xA0 || c as u32 == 0x1680 || 0x2000 <= c as u32
            <= 0x200A || c as u32 == 0x2028 || c as u32 == 0x2029 || c as u32 == 0x202F || c as u32
            == 0x205F || c as u32 == 0x3000),
{
}

/// Changing the case of two texts put together changes it in each of them, and so does replacing.
pub proof fn law_letters_are_changed_one_by_one(a: Seq<char>, b: Seq<char>, from: char, to: char)
    ensures
        lowered(a + b) == lowered(a) + lowered(b),
        lowered(a).len() == a.len(),
        replaced(a + b, from, to) == replaced(a, from, to) + replaced(b, from, to),
        replaced(a, from, to).len() == a.len(),
        !a.contains(from) ==> replaced(a, from, to) == a,
        from != to ==> !replaced(a, from, to).contains(from),
{
    assert(lowered(a + b) =~= lowered(a) + lowered(b));
    assert(replaced(a + b, from, to) =~= replaced(a, from, to) + replaced(b, from, to));
    if !a.contains(from) {
        assert forall|k: int| 0 <= k < a.len() implies replaced(a, from, to)[k] == a[k] by {
            assert(a.contains(a[k]));
        }
        assert(replaced(a, from, to) =~= a);
    }
    if from != to && replaced(a, from, to).contains(from) {
        let k = choose|k: int| 0 <= k < a.len() && replaced(a, from, to)[k] == from;
        assert(replaced(a, from, to)[k] == if a[k] == from { to } else { a[k] });
    }
}

/// A text without white space at its ends is left as it is.
pub proof fn law_texts_without_blanks_around_stay(s: Seq<char>)
    requires
        s.len() > 0,
        !white_space(s[0]),
        !white_space(s.last()),
    ensures
        trimmed(s) == s,
{
}

/// A mark is first found where it stands, if its last letter does not occur before.
pub proof fn law_marks_are_found_where_they_stand(
    before: Seq<char>,
    mark: Seq<char>,
    after: Seq<char>,
)
    requires
        mark.len() > 0,
        !before.contains(mark.last()),
        forall|k: int| 0 <= k < mark.len() - 1 ==> #[trigger] mark[k] != mark.last(),
    ensures
        first_of(before + mark + after, mark) == Some(before.len() as int),
        (before + mark + after).skip(before.len() + mark.len() as int) == after,
{
    let s = before + mark + after;
    let at = before.len() as int;
    assert(s.subrange(at, at + mark.len()) =~= mark);
    assert forall|p: int| p < at implies !#[trigger] text::text_at(s, p, mark) by {
        if text::text_at(s, p, mark) {
            let last = p + mark.len() - 1;
            assert(s.subrange(p, p + mark.len())[mark.len() - 1] == mark.last());
            assert(s[last] == mark.last());
            if last < at {
                assert(before[last] == mark.last());
            } else {
                assert(mark[last - at] == mark.last());
            }
        }
    }
    lemma_first_is_unique(s, mark, at);
    assert(s.skip(at + mark.len()) =~= after);
}

/// White space around a text is cut off, however much of it there is.
pub proof fn law_blanks_around_are_cut(before: Seq<char>, s: Seq<char>, after: Seq<char>)
    requires
        s.len() > 0,
        !white_space(s[0]),
        !white_space(s.last()),
        forall|k: int| 0 <= k < before.len() ==> white_space(#[trigger] before[k]),
        forall|k: int| 0 <= k < after.len() ==> white_space(#[trigger] after[k]),
    ensures
        trimmed(before + s + after) == s,
    decreases before.len() + after.len(),
{
    let whole = before + s + after;
    if before.len() > 0 {
        assert(white_space(before[0]));
        let fewer = before.skip(1);
        assert forall|k: int| 0 <= k < fewer.len() implies white_space(#[trigger] fewer[k]) by {
            assert(white_space(before[k + 1]));
        }
        assert(whole.skip(1) =~= fewer + s + after);
        law_blanks_around_are_cut(fewer, s, after);
    } else if after.len() > 0 {
        assert(white_space(after[after.len() - 1]));
        let fewer = after.drop_last();
        assert forall|k: int| 0 <= k < fewer.len() implies white_space(#[trigger] fewer[k]) by {
            assert(white_space(after[k]));
        }
        assert(whole[0] == s[0]);
        assert(whole.drop_last() =~= before + s + fewer);
        assert((before + s + fewer)[0] == s[0]);
        law_blanks_around_are_cut(before, s, fewer);
    } else {
        assert(whole =~= s);
        law_texts_without_blanks_around_stay(s);
    }
}

/// Of a text that is nothing but white space nothing is left.
pub proof fn law_nothing_is_left_of_blanks(s: Seq<char>)
    requires
        forall|k: int| 0 <= k < s.len() ==> white_space(#[trigger] s[k]),
    ensures
        trimmed(s).len() == 0,
    decreases s.len(),
{
    if s.len() > 0 {
        let fewer = s.skip(1);
        assert forall|k: int| 0 <= k < fewer.len() implies white_space(#[trigger] fewer[k]) by {
            assert(white_space(s[k + 1]));
        }
        assert(white_space(s[0]));
        law_nothing_is_left_of_blanks(fewer);
    }
}

} // verus!
