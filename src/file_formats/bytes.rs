//! Little-endian integers and signatures read from byte buffers.

use vstd::prelude::*;

verus! {

/// The value of the two bytes of `s` at `at`, least significant first.
pub open spec fn le_u16(s: Seq<u8>, at: int) -> int {
    s[at] as int + 256 * (s[at + 1] as int)
}

/// The value of the four bytes of `s` at `at`, least significant first.
pub open spec fn le_u32(s: Seq<u8>, at: int) -> int {
    le_u16(s, at) + 65536 * le_u16(s, at + 2)
}

/// Whether `s` begins with the bytes of `magic`.
pub open spec fn starts_with(s: Seq<u8>, magic: Seq<u8>) -> bool {
    magic.len() <= s.len() && s.subrange(0, magic.len() as int) == magic
}

pub fn read_u16_le(input: &[u8], at: usize) -> (r: u16)
    requires
        at + 2 <= input@.len(),
    ensures
        r as int == le_u16(input@, at as int),
{
    let lo = input[at] as u16;
    let hi = input[at + 1] as u16;
    lo + 256 * hi
}

pub fn read_u32_le(input: &[u8], at: usize) -> (r: u32)
    requires
        at + 4 <= input@.len(),
    ensures
        r as int == le_u32(input@, at as int),
{
    let _len = input.len();
    let lo = read_u16_le(input, at) as u32;
    let hi = read_u16_le(input, at + 2) as u32;
    lo + 65536 * hi
}

/// Whether the buffer begins with `magic`, compared byte by byte.
pub fn has_prefix(input: &[u8], magic: &[u8]) -> (r: bool)
    ensures
        r == starts_with(input@, magic@),
{
    if input.len() < magic.len() {
        return false;
    }
    let mut i: usize = 0;
    while i < magic.len()
        invariant
            magic@.len() <= input@.len(),
            i <= magic@.len(),
            forall|k: int| 0 <= k < i ==> input@[k] == magic@[k],
        decreases magic@.len() - i,
    {
        if input[i] != magic[i] {
            assert(input@.subrange(0, magic@.len() as int)[i as int] != magic@[i as int]);
            return false;
        }
        i = i + 1;
    }
    assert(input@.subrange(0, magic@.len() as int) =~= magic@);
    true
}

} // verus!
