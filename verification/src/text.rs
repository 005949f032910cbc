//! Text: comparing, taking apart and putting together strings, character by character.

use vstd::prelude::*;
use vstd::string::*;
use vstd::utf8::*;

verus! {

broadcast use vstd::slice::group_slice_axioms;

/// `String::push` appends the character to the end of the string.
pub assume_specification[ String::push ](s: &mut String, c: char)
    ensures
        final(s)@ == old(s)@.push(c),
;

/// Whether two texts are the same.
pub fn same_text(a: &str, b: &str) -> (same: bool)
    ensures
        same == (a@ == b@),
{
    let x = a.as_bytes();
    let y = b.as_bytes();
    proof {
        encode_utf8_decode_utf8(a@);
        encode_utf8_decode_utf8(b@);
    }
    if x.len() != y.len() {
        return false;
    }
    let mut i: usize = 0;
    while i < x.len()
        invariant
            i <= x@.len(),
            x@.len() == y@.len(),
            x@ == encode_utf8(a@),
            y@ == encode_utf8(b@),
            forall|k: int| 0 <= k < i ==> x@[k] == y@[k],
        decreases x@.len() - i,
    {
        if x[i] != y[i] {
            return false;
        }
        i = i + 1;
    }
    assert(x@ =~= y@);
    true
}

/// The characters of a text.
pub fn letters(text: &str) -> (all: Vec<char>)
    ensures
        all@ == text@,
{
    let mut all: Vec<char> = Vec::new();
    for letter in it: text.chars()
        invariant
            all@ =~= it.seq().take(it.index() as int),
            it.seq() == text@,
    {
        all.push(letter);
    }
    all
}

/// The text made of these characters.
pub fn text_of(all: &[char]) -> (text: String)
    ensures
        text@ == all@,
{
    let mut text = String::new();
    let mut i: usize = 0;
    while i < all.len()
        invariant
            i <= all@.len(),
            text@ == all@.take(i as int),
        decreases all@.len() - i,
    {
        text.push(all[i]);
        assert(all@.take(i as int).push(all@[i as int]) =~= all@.take(i as int + 1));
        i = i + 1;
    }
    assert(all@.take(all@.len() as int) =~= all@);
    text
}

/// An owned copy of a text.
pub fn owned(text: &str) -> (copy: String)
    ensures
        copy@ == text@,
{
    String::from_str(text)
}

/// `part` stands at the start of `whole`.
pub open spec fn is_prefix(part: Seq<char>, whole: Seq<char>) -> bool {
    part.len() <= whole.len() && whole.take(part.len() as int) == part
}

/// `part` stands at position `at` of `whole`.
pub open spec fn text_at(whole: Seq<char>, at: int, part: Seq<char>) -> bool {
    0 <= at && at + part.len() <= whole.len() && whole.subrange(at, at + part.len()) == part
}

/// `part` stands somewhere in `whole`.
pub open spec fn contains_text(whole: Seq<char>, part: Seq<char>) -> bool {
    exists|at: int| #[trigger] text_at(whole, at, part)
}

/// Whether `part` stands at position `at` of `whole`.
pub fn stands_at(whole: &[char], at: usize, part: &[char]) -> (yes: bool)
    ensures
        yes == text_at(whole@, at as int, part@),
{
    if at > whole.len() || part.len() > whole.len() - at {
        return false;
    }
    let ghost window = whole@.subrange(at as int, at + part@.len());
    let mut i: usize = 0;
    while i < part.len()
        invariant
            i <= part@.len(),
            at + part@.len() <= whole.len(),
            window == whole@.subrange(at as int, at + part@.len()),
            forall|k: int| 0 <= k < i ==> window[k] == part@[k],
        decreases part@.len() - i,
    {
        if whole[at + i] != part[i] {
            assert(window[i as int] != part@[i as int]);
            return false;
        }
        i = i + 1;
    }
    assert(window =~= part@);
    true
}

/// Whether `text` starts with `part`.
pub fn starts_with(text: &str, part: &str) -> (yes: bool)
    ensures
        yes == is_prefix(part@, text@),
{
    let whole = letters(text);
    let head = letters(part);
    let yes = stands_at(&whole, 0, &head);
    assert(part@.len() <= text@.len() ==> text@.subrange(0, part@.len() as int) =~= text@.take(
        part@.len() as int,
    ));
    yes
}

/// The texts of a list.
pub open spec fn texts(list: Seq<String>) -> Seq<Seq<char>> {
    list.map_values(|one: String| one@)
}

/// The texts of a list with a separator between them.
pub open spec fn joined(list: Seq<Seq<char>>, separator: Seq<char>) -> Seq<char>
    decreases list.len(),
{
    if list.len() == 0 {
        Seq::empty()
    } else if list.len() == 1 {
        list[0]
    } else {
        joined(list.drop_last(), separator) + separator + list.last()
    }
}

/// Appends the texts of a list with a separator between them.
pub fn push_joined(shown: &mut String, list: &Vec<String>, separator: &str)
    ensures
        final(shown)@ == old(shown)@ + joined(texts(list@), separator@),
{
    let ghost all = texts(list@);
    let ghost before = shown@;
    let mut i: usize = 0;
    while i < list.len()
        invariant
            i <= list@.len(),
            all == texts(list@),
            shown@ == before + joined(all.take(i as int), separator@),
        decreases list@.len() - i,
    {
        proof {
            assert(all.take(i as int + 1).drop_last() =~= all.take(i as int));
            assert(all.take(i as int + 1).last() == list@[i as int]@);
        }
        if i > 0 {
            shown.append(separator);
        }
        shown.append(list[i].as_str());
        i = i + 1;
        assert(shown@ =~= before + joined(all.take(i as int), separator@));
    }
    assert(all.take(all.len() as int) =~= all);
}

/// The letter for a digit, up to hexadecimal ones.
pub open spec fn digit(value: nat) -> char {
    if value == 0 { '0' }
    else if value == 1 { '1' }
    else if value == 2 { '2' }
    else if value == 3 { '3' }
    else if value == 4 { '4' }
    else if value == 5 { '5' }
    else if value == 6 { '6' }
    else if value == 7 { '7' }
    else if value == 8 { '8' }
    else if value == 9 { '9' }
    else if value == 10 { 'A' }
    else if value == 11 { 'B' }
    else if value == 12 { 'C' }
    else if value == 13 { 'D' }
    else if value == 14 { 'E' }
    else { 'F' }
}

/// A number written in the given base, without leading zeros.
pub open spec fn number(value: nat, base: nat) -> Seq<char>
    decreases value,
{
    if value < base || base < 2 {
        seq![digit(value)]
    } else {
        proof {
            lemma_quotient_is_smaller(value, base);
        }
        number(value / base, base).push(digit(value % base))
    }
}

/// Dividing by a base of two or more makes a number smaller.
pub proof fn lemma_quotient_is_smaller(value: nat, base: nat)
    by (nonlinear_arith)
    requires
        value >= base,
        base >= 2,
    ensures
        value / base < value,
{
}

/// A number written in decimal.
pub open spec fn decimal(value: nat) -> Seq<char> {
    number(value, 10)
}

/// A text filled up with zeros on the left to the given width.
pub open spec fn zero_padded(text: Seq<char>, width: nat) -> Seq<char>
    decreases width - text.len(),
{
    if text.len() >= width {
        text
    } else {
        zero_padded(seq!['0'] + text, width)
    }
}

fn digit_letter(value: u64) -> (letter: char)
    ensures
        letter == digit(value as nat),
{
    match value {
        0 => '0',
        1 => '1',
        2 => '2',
        3 => '3',
        4 => '4',
        5 => '5',
        6 => '6',
        7 => '7',
        8 => '8',
        9 => '9',
        10 => 'A',
        11 => 'B',
        12 => 'C',
        13 => 'D',
        14 => 'E',
        _ => 'F',
    }
}

/// Appends `value` written in `base`.
pub fn push_number(text: &mut String, value: u64, base: u64)
    requires
        2 <= base,
    ensures
        final(text)@ == old(text)@ + number(value as nat, base as nat),
    decreases value,
{
    if value >= base {
        proof {
            lemma_quotient_is_smaller(value as nat, base as nat);
        }
        push_number(text, value / base, base);
    }
    text.push(digit_letter(value % base));
    assert(value < base ==> value % base == value) by (nonlinear_arith)
        requires
            2 <= base,
    ;
    assert(text@ =~= old(text)@ + number(value as nat, base as nat));
}

/// Appends `value` in decimal.
pub fn push_decimal(text: &mut String, value: u64)
    ensures
        final(text)@ == old(text)@ + decimal(value as nat),
{
    push_number(text, value, 10);
}

/// Appends `value` in decimal, filled up with zeros to four digits.
pub fn push_decimal_4(text: &mut String, value: u64)
    ensures
        final(text)@ == old(text)@ + zero_padded(decimal(value as nat), 4),
{
    let ghost written = decimal(value as nat);
    proof {
        reveal_with_fuel(number, 5);
        reveal_with_fuel(zero_padded, 5);
        lemma_number_is_not_empty((value / 1000) as nat, 10);
        assert((value / 10) / 10 == value / 100);
        assert((value / 100) / 10 == value / 1000);
    }
    if value < 1000 {
        text.push('0');
    }
    if value < 100 {
        text.push('0');
    }
    if value < 10 {
        text.push('0');
    }
    push_decimal(text, value);
    assert(text@ =~= old(text)@ + zero_padded(written, 4));
}

/// A written number has at least one digit.
pub proof fn lemma_number_is_not_empty(value: nat, base: nat)
    ensures
        number(value, base).len() >= 1,
    decreases value,
{
    if value >= base && base >= 2 {
        lemma_quotient_is_smaller(value, base);
        lemma_number_is_not_empty(value / base, base);
    }
}

/// What a letter is worth as a digit.
pub open spec fn worth_of(letter: char) -> int {
    if '0' <= letter <= '9' {
        letter as int - '0' as int
    } else {
        letter as int - 'A' as int + 10
    }
}

/// What the letters are worth as a number in a base.
pub open spec fn worth(letters: Seq<char>, base: int) -> int
    decreases letters.len(),
{
    if letters.len() == 0 {
        0
    } else {
        worth(letters.drop_last(), base) * base + worth_of(letters.last())
    }
}

/// A number is written with the digits of its base, from 0 to 9 and from A on, and they are worth
/// the number. It does not start with a zero, unless it is zero.
pub proof fn law_written_numbers_are_worth_the_number(value: nat, base: nat)
    requires
        2 <= base <= 16,
    ensures
        worth(number(value, base), base as int) == value,
        number(value, base).len() >= 1,
        forall|k: int|
            0 <= k < number(value, base).len() ==> {
                let letter = #[trigger] number(value, base)[k];
                ('0' <= letter <= '9' || 'A' <= letter <= 'F') && 0 <= worth_of(letter) < base
            },
        number(value, base)[0] == '0' <==> value == 0,
    decreases value,
{
    reveal_with_fuel(worth, 2);
    let all = number(value, base);
    if value < base {
        assert(all.drop_last() =~= Seq::<char>::empty());
        assert(all.last() == digit(value));
    } else {
        lemma_quotient_is_smaller(value, base);
        let (high, low) = (value / base, value % base);
        vstd::arithmetic::div_mod::lemma_fundamental_div_mod(value as int, base as int);
        assert(low < base && high >= 1) by (nonlinear_arith)
            requires
                low == value % base,
                high == value / base,
                base >= 2,
                value >= base,
        ;
        law_written_numbers_are_worth_the_number(high, base);
        let before = number(high, base);
        assert(all.drop_last() =~= before);
        assert(all.last() == digit(low));
        assert(high * base == base * high) by (nonlinear_arith);
        assert forall|k: int| 0 <= k < all.len() implies {
            let letter = #[trigger] all[k];
            ('0' <= letter <= '9' || 'A' <= letter <= 'F') && 0 <= worth_of(letter) < base
        } by {
            if k < before.len() {
                assert(all[k] == before[k]);
            }
        }
    }
}

/// Filling up with zeros keeps the text at the end, and puts nothing but zeros before it.
pub proof fn law_filling_up_keeps_the_text(text: Seq<char>, width: nat)
    ensures
        zero_padded(text, width).len() == if text.len() >= width { text.len() } else { width },
        zero_padded(text, width).skip(zero_padded(text, width).len() - text.len()) == text,
        forall|k: int|
            0 <= k < zero_padded(text, width).len() - text.len() ==> #[trigger] zero_padded(
                text,
                width,
            )[k] == '0',
    decreases width - text.len(),
{
    let all = zero_padded(text, width);
    if text.len() >= width {
        assert(all.skip(0) =~= all);
    } else {
        let longer = seq!['0'] + text;
        law_filling_up_keeps_the_text(longer, width);
        let n = all.len() - longer.len();
        assert(all.skip(n) == longer);
        assert forall|k: int| 0 <= k < text.len() implies all.skip(n + 1)[k] == text[k] by {
            assert(all.skip(n)[k + 1] == longer[k + 1]);
        }
        assert(all.skip(n + 1) =~= text);
        assert(all[n] == all.skip(n)[0]);
    }
}

/// Texts with a separator between them: each stands behind the ones before it, with as many
/// separators as there are texts before it.
pub proof fn law_joined_texts_grow_by_one(list: Seq<Seq<char>>, separator: Seq<char>, one: Seq<char>)
    ensures
        joined(seq![one], separator) == one,
        list.len() > 0 ==> joined(list.push(one), separator) == joined(list, separator) + separator
            + one,
{
    assert(list.push(one).drop_last() =~= list);
    assert(seq![one][0] == one);
}

/// A text starts with another where their letters agree, one by one.
pub proof fn law_starts_are_told_letter_by_letter(part: Seq<char>, whole: Seq<char>)
    ensures
        is_prefix(part, whole) <==> part.len() <= whole.len() && forall|k: int|
            0 <= k < part.len() ==> whole[k] == #[trigger] part[k],
{
    if part.len() <= whole.len() {
        let head = whole.take(part.len() as int);
        if head == part {
            assert forall|k: int| 0 <= k < part.len() implies whole[k] == #[trigger] part[k] by {
                assert(head[k] == whole[k]);
            }
        } else if forall|k: int| 0 <= k < part.len() ==> whole[k] == #[trigger] part[k] {
            assert(head =~= part);
        }
    }
}

/// A text is contained in every text that is made up with it.
pub proof fn law_parts_are_contained(before: Seq<char>, part: Seq<char>, after: Seq<char>)
    ensures
        contains_text(before + part + after, part),
        is_prefix(before, before + part),
{
    let whole = before + part + after;
    let at = before.len() as int;
    assert(whole.subrange(at, at + part.len()) =~= part);
    assert(text_at(whole, at, part));
    assert((before + part).take(at) =~= before);
}

} // verus!
