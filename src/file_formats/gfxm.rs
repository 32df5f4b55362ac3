//! The header of a GFXM graphics model.

use vstd::prelude::*;

use super::bytes::{has_prefix, le_u32, read_u32_le, starts_with};
use super::HeaderError;

verus! {

/// Bytes taken by the signature and the six header words.
pub const GFXM_HEADER_LEN: usize = 28;

/// "GFXM"
pub open spec fn gfxm_magic() -> Seq<u8> {
    seq![0x47u8, 0x46, 0x58, 0x4d]
}

#[derive(Debug, Clone, Copy)]
#[allow(non_snake_case)]
pub struct GfxmHeader {
    pub signature: [u8; 4],
    pub unknown_1: u32,
    pub unknown_2: u32,
    pub num_coordinates: u32,
    pub num_segm_sections: u32,
    pub segm_table_offset: u32,
    pub modl_table_offset: u32,
}

/// Whether the buffer begins with the GFXM signature.
pub fn parse_magic(input: &[u8]) -> (r: bool)
    ensures
        r == starts_with(input@, gfxm_magic()),
{
    let magic: [u8; 4] = [0x47, 0x46, 0x58, 0x4d];
    assert(magic@ =~= gfxm_magic());
    has_prefix(input, magic.as_slice())
}

/// Reads the header at the start of a GFXM buffer: the signature, then six
/// little-endian words.
pub fn parse_gfxm_header(input: &[u8]) -> (r: Result<GfxmHeader, HeaderError>)
    ensures
        !starts_with(input@, gfxm_magic()) <==> r matches Err(HeaderError::BadSignature),
        starts_with(input@, gfxm_magic()) && input@.len() < GFXM_HEADER_LEN <==> r matches Err(
            HeaderError::Truncated,
        ),
        r matches Ok(h) ==> {
            &&& h.signature@ == gfxm_magic()
            &&& h.unknown_1 as int == le_u32(input@, 4)
            &&& h.unknown_2 as int == le_u32(input@, 8)
            &&& h.num_coordinates as int == le_u32(input@, 12)
            &&& h.num_segm_sections as int == le_u32(input@, 16)
            &&& h.segm_table_offset as int == le_u32(input@, 20)
            &&& h.modl_table_offset as int == le_u32(input@, 24)
        },
{
    if !parse_magic(input) {
        return Err(HeaderError::BadSignature);
    }
    if input.len() < GFXM_HEADER_LEN {
        return Err(HeaderError::Truncated);
    }
    let signature: [u8; 4] = [0x47, 0x46, 0x58, 0x4d];
    assert(signature@ =~= gfxm_magic());
    Ok(
        GfxmHeader {
            signature,
            unknown_1: read_u32_le(input, 4),
            unknown_2: read_u32_le(input, 8),
            num_coordinates: read_u32_le(input, 12),
            num_segm_sections: read_u32_le(input, 16),
            segm_table_offset: read_u32_le(input, 20),
            modl_table_offset: read_u32_le(input, 24),
        },
    )
}

} // verus!
