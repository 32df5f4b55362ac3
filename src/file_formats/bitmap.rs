//! The signature of a bitmap image; its contents are left to image codecs.

use vstd::prelude::*;

use super::bytes::{has_prefix, starts_with};

verus! {

/// "BM"
pub open spec fn bitmap_magic() -> Seq<u8> {
    seq![0x42u8, 0x4d]
}

/// Whether the buffer begins with the bitmap signature.
pub fn parse_magic(input: &[u8]) -> (r: bool)
    ensures
        r == starts_with(input@, bitmap_magic()),
{
    let magic: [u8; 2] = [0x42, 0x4d];
    assert(magic@ =~= bitmap_magic());
    has_prefix(input, magic.as_slice())
}

} // verus!
