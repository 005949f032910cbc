//! Byte patterns and fixed-width integers inside a byte sequence.

use vstd::prelude::*;

verus! {

/// `pattern` stands in `data` at position `at`, entirely.
pub open spec fn pattern_at(data: Seq<u8>, at: int, pattern: Seq<u8>) -> bool {
    &&& 0 <= at
    &&& at + pattern.len() <= data.len()
    &&& forall|k: int| 0 <= k < pattern.len() ==> data[at + k] == #[trigger] pattern[k]
}

/// Little-endian 16-bit integer at `at`.
pub open spec fn le16(data: Seq<u8>, at: int) -> int {
    data[at] + 0x100 * data[at + 1]
}

/// Little-endian 32-bit integer at `at`.
pub open spec fn le32(data: Seq<u8>, at: int) -> int {
    data[at] + 0x100 * data[at + 1] + 0x1_0000 * data[at + 2] + 0x100_0000 * data[at + 3]
}

/// Big-endian 32-bit integer at `at`.
pub open spec fn be32(data: Seq<u8>, at: int) -> int {
    0x100_0000 * data[at] + 0x1_0000 * data[at + 1] + 0x100 * data[at + 2] + data[at + 3]
}

/// Big-endian 64-bit integer at `at`.
pub open spec fn be64(data: Seq<u8>, at: int) -> int {
    0x1_0000_0000 * be32(data, at) + be32(data, at + 4)
}

/// Value of a little-endian field made of the bytes of `field`.
pub open spec fn le_value(field: Seq<u8>) -> nat
    decreases field.len(),
{
    if field.len() == 0 {
        0
    } else {
        (field[0] as nat) + 256 * le_value(field.skip(1))
    }
}

/// Whether `pattern` stands in `data` at `at`.
pub fn matches_at(data: &[u8], at: usize, pattern: &[u8]) -> (found: bool)
    ensures
        found == pattern_at(data@, at as int, pattern@),
{
    if at > data.len() || pattern.len() > data.len() - at {
        return false;
    }
    let mut k: usize = 0;
    while k < pattern.len()
        invariant
            k <= pattern@.len(),
            at + pattern@.len() <= data.len(),
            forall|j: int| 0 <= j < k ==> data@[at + j] == #[trigger] pattern@[j],
        decreases pattern@.len() - k,
    {
        if data[at + k] != pattern[k] {
            assert(data@[at + k as int] != pattern@[k as int]);
            return false;
        }
        k = k + 1;
    }
    true
}

/// Whether `pattern` stands anywhere in `data`.
pub fn contains_pattern(data: &[u8], pattern: &[u8]) -> (found: bool)
    ensures
        found == exists|at: int| #[trigger] pattern_at(data@, at, pattern@),
{
    let mut at: usize = 0;
    while at <= data.len() && pattern.len() <= data.len() - at
        invariant
            at <= data@.len() + 1,
            forall|p: int| p < at ==> !#[trigger] pattern_at(data@, p, pattern@),
        decreases data@.len() + 1 - at,
    {
        if matches_at(data, at, pattern) {
            return true;
        }
        if at == data.len() {
            return false;
        }
        at = at + 1;
    }
    false
}

/// Reads the little-endian 16-bit integer at `at`.
pub fn read_le16(data: &[u8], at: usize) -> (value: u16)
    requires
        at + 2 <= data.len(),
    ensures
        value == le16(data@, at as int),
{
    data[at] as u16 + 0x100 * (data[at + 1] as u16)
}

/// Reads the little-endian 32-bit integer at `at`.
pub fn read_le32(data: &[u8], at: usize) -> (value: u32)
    requires
        at + 4 <= data.len(),
    ensures
        value == le32(data@, at as int),
{
    data[at] as u32 + 0x100 * (data[at + 1] as u32) + 0x1_0000 * (data[at + 2] as u32) + 0x100_0000
        * (data[at + 3] as u32)
}

/// Reads the big-endian 32-bit integer at `at`.
pub fn read_be32(data: &[u8], at: usize) -> (value: u32)
    requires
        at + 4 <= data.len(),
    ensures
        value == be32(data@, at as int),
{
    0x100_0000 * (data[at] as u32) + 0x1_0000 * (data[at + 1] as u32) + 0x100 * (data[at + 2] as u32)
        + data[at + 3] as u32
}

/// Reads the big-endian 64-bit integer at `at`.
pub fn read_be64(data: &[u8], at: usize) -> (value: u64)
    requires
        at + 8 <= data.len(),
    ensures
        value == be64(data@, at as int),
{
    let high: u64 = read_be32(data, at) as u64;
    let low: u64 = read_be32(data, at + 4) as u64;
    0x1_0000_0000 * high + low
}

/// A little-endian field gives back the number that was written into it, lowest byte first.
pub proof fn law_little_endian_gives_back_what_was_written(data: Seq<u8>, at: int, value: u32)
    requires
        0 <= at,
        at + 4 <= data.len(),
        data[at] == (value & 0xFF) as u8,
        data[at + 1] == ((value >> 8) & 0xFF) as u8,
        data[at + 2] == ((value >> 16) & 0xFF) as u8,
        data[at + 3] == (value >> 24) as u8,
    ensures
        le32(data, at) == value,
        le16(data, at) == value & 0xFFFF,
        le16(data, at + 2) == value >> 16,
        le_value(data.subrange(at, at + 4)) == value,
{
    lemma_bytes_of(data[at], data[at + 1], data[at + 2], data[at + 3], value);
    let field = data.subrange(at, at + 4);
    reveal_with_fuel(le_value, 5);
    assert(field.skip(1).skip(1) =~= data.subrange(at + 2, at + 4));
    assert(field.skip(1).skip(1).skip(1) =~= data.subrange(at + 3, at + 4));
}

/// A big-endian field gives back the number that was written into it, highest byte first.
pub proof fn law_big_endian_gives_back_what_was_written(
    data: Seq<u8>,
    at: int,
    high: u32,
    low: u32,
)
    requires
        0 <= at,
        at + 8 <= data.len(),
        data[at] == (high >> 24) as u8,
        data[at + 1] == ((high >> 16) & 0xFF) as u8,
        data[at + 2] == ((high >> 8) & 0xFF) as u8,
        data[at + 3] == (high & 0xFF) as u8,
        data[at + 4] == (low >> 24) as u8,
        data[at + 5] == ((low >> 16) & 0xFF) as u8,
        data[at + 6] == ((low >> 8) & 0xFF) as u8,
        data[at + 7] == (low & 0xFF) as u8,
    ensures
        be32(data, at) == high,
        be32(data, at + 4) == low,
        be64(data, at) == 0x1_0000_0000 * high + low,
{
    lemma_bytes_of(data[at + 3], data[at + 2], data[at + 1], data[at], high);
    lemma_bytes_of(data[at + 7], data[at + 6], data[at + 5], data[at + 4], low);
}

proof fn lemma_bytes_of(one: u8, two: u8, three: u8, four: u8, value: u32)
    by (bit_vector)
    requires
        one == (value & 0xFF) as u8,
        two == ((value >> 8) & 0xFF) as u8,
        three == ((value >> 16) & 0xFF) as u8,
        four == (value >> 24) as u8,
    ensures
        one + 0x100 * two + 0x1_0000 * three + 0x100_0000 * four == value,
        one + 0x100 * two == value & 0xFFFF,
        three + 0x100 * four == value >> 16,
{
}

/// What is found in some data is found in the same place of any longer data, and nothing is found
/// where a byte differs.
pub proof fn law_patterns_are_told_byte_by_byte(data: Seq<u8>, at: int, pattern: Seq<u8>, k: int)
    requires
        0 <= at,
        at + pattern.len() <= data.len(),
        0 <= k < pattern.len(),
    ensures
        data[at + k] != pattern[k] ==> !pattern_at(data, at, pattern),
        data.subrange(at, at + pattern.len()) == pattern ==> pattern_at(data, at, pattern),
        pattern_at(data, at, pattern) ==> data.subrange(at, at + pattern.len()) == pattern,
{
    let part = data.subrange(at, at + pattern.len());
    if part == pattern {
        assert forall|j: int| 0 <= j < pattern.len() implies data[at + j] == #[trigger] pattern[j] by {
            assert(part[j] == pattern[j]);
        }
    }
    if pattern_at(data, at, pattern) {
        assert(part =~= pattern);
    }
}

} // verus!
