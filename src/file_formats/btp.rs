//! The BTP texture container: a header, a table of texture pages, a table of
//! 256-colour palettes and the pixel planes that index into them.

use vstd::prelude::*;

use super::bytes::{has_prefix, le_u16, le_u32, read_u16_le, read_u32_le, starts_with};
use super::HeaderError;

verus! {

/// Bytes taken by the signature and the header fields.
pub const BTP_HEADER_LEN: usize = 64;

/// "BTP "
pub open spec fn btp_magic() -> Seq<u8> {
    seq![0x42u8, 0x54, 0x50, 0x20]
}

#[derive(Debug, Clone, Copy)]
pub struct BtpHeader {
    pub signature: [u8; 4],
    pub unknown_1: u32,
    pub unknown_2: u32,
    pub unknown_3: u32,
    pub unknown_4: u32,
    pub num_cobjects: u32,
    pub unknown_5: u32,
    pub skybox_data_offset: u32,
    pub unknown_6: u32,
    pub texture_data_offset: u32,
    pub cobjects_data_offset: u32,
    pub unknown_7: u32,
    pub unknown_8: u32,
    pub num_textures: u16,
    pub num_palettes: u16,
    pub texture_page_table_offset: u32,
    pub palette_data_offset: u32,
}

/// The header fields as they stand, little-endian, after the signature.
pub open spec fn header_fields_of(h: BtpHeader, s: Seq<u8>) -> bool {
    &&& h.signature@ == btp_magic()
    &&& h.unknown_1 as int == le_u32(s, 4)
    &&& h.unknown_2 as int == le_u32(s, 8)
    &&& h.unknown_3 as int == le_u32(s, 12)
    &&& h.unknown_4 as int == le_u32(s, 16)
    &&& h.num_cobjects as int == le_u32(s, 20)
    &&& h.unknown_5 as int == le_u32(s, 24)
    &&& h.skybox_data_offset as int == le_u32(s, 28)
    &&& h.unknown_6 as int == le_u32(s, 32)
    &&& h.texture_data_offset as int == le_u32(s, 36)
    &&& h.cobjects_data_offset as int == le_u32(s, 40)
    &&& h.unknown_7 as int == le_u32(s, 44)
    &&& h.unknown_8 as int == le_u32(s, 48)
    &&& h.num_textures as int == le_u16(s, 52)
    &&& h.num_palettes as int == le_u16(s, 54)
    &&& h.texture_page_table_offset as int == le_u32(s, 56)
    &&& h.palette_data_offset as int == le_u32(s, 60)
}

/// Whether the buffer begins with the BTP signature.
pub fn parse_magic(input: &[u8]) -> (r: bool)
    ensures
        r == starts_with(input@, btp_magic()),
{
    let magic: [u8; 4] = [0x42, 0x54, 0x50, 0x20];
    assert(magic@ =~= btp_magic());
    has_prefix(input, magic.as_slice())
}

/// Reads the header at the start of a BTP container.
pub fn parse_btp_header(input: &[u8]) -> (r: Result<BtpHeader, HeaderError>)
    ensures
        !starts_with(input@, btp_magic()) <==> r matches Err(HeaderError::BadSignature),
        starts_with(input@, btp_magic()) && input@.len() < BTP_HEADER_LEN <==> r matches Err(
            HeaderError::Truncated,
        ),
        r matches Ok(h) ==> header_fields_of(h, input@),
{
    if !parse_magic(input) {
        return Err(HeaderError::BadSignature);
    }
    if input.len() < BTP_HEADER_LEN {
        return Err(HeaderError::Truncated);
    }
    let signature: [u8; 4] = [0x42, 0x54, 0x50, 0x20];
    assert(signature@ =~= btp_magic());
    Ok(
        BtpHeader {
            signature,
            unknown_1: read_u32_le(input, 4),
            unknown_2: read_u32_le(input, 8),
            unknown_3: read_u32_le(input, 12),
            unknown_4: read_u32_le(input, 16),
            num_cobjects: read_u32_le(input, 20),
            unknown_5: read_u32_le(input, 24),
            skybox_data_offset: read_u32_le(input, 28),
            unknown_6: read_u32_le(input, 32),
            texture_data_offset: read_u32_le(input, 36),
            cobjects_data_offset: read_u32_le(input, 40),
            unknown_7: read_u32_le(input, 44),
            unknown_8: read_u32_le(input, 48),
            num_textures: read_u16_le(input, 52),
            num_palettes: read_u16_le(input, 54),
            texture_page_table_offset: read_u32_le(input, 56),
            palette_data_offset: read_u32_le(input, 60),
        },
    )
}

/// Bytes taken by one entry of the texture-page table.
pub const PAGE_INFO_LEN: usize = 12;

/// Colours in a palette.
pub const PALETTE_COLOURS: usize = 256;

/// Bytes taken by one palette: 256 colours of four bytes.
pub const PALETTE_LEN: usize = 1024;

#[derive(Debug, PartialEq, Eq, Structural, Clone, Copy)]
pub struct TexturePageInfo {
    pub width: u16,
    pub height: u16,
    /// Index of the page's palette in the palette table.
    pub palette: u32,
    /// Offset of the page's pixels from the header's texture data offset.
    pub texture_offset: u32,
}

#[derive(Debug, PartialEq, Eq, Structural, Clone, Copy)]
pub struct Colour {
    pub red: u8,
    pub green: u8,
    pub blue: u8,
    pub alpha: u8,
}

/// A colour table; a whole one read from a container holds 256 colours.
#[derive(Debug, Clone)]
pub struct Palette {
    pub data: Vec<Colour>,
}

/// One texture page: its dimensions, its palette, and one palette index per
/// pixel, row by row.
#[derive(Debug, Clone)]
pub struct Texture {
    pub info: TexturePageInfo,
    pub palette: Palette,
    pub image_data: Vec<u8>,
}

/// Why a texture page could not be decoded.
#[derive(Debug, PartialEq, Eq, Structural, Clone, Copy)]
pub enum TextureError {
    /// The width or the height is zero, or the pixels do not number
    /// width * height.
    InvalidDimensions,
    /// The palette is empty, or the page names one that the table lacks.
    MissingPalette,
    /// Some pixel names a colour that the palette lacks.
    PaletteIndexOutOfBounds,
    /// The page's table entry or its pixels lie past the end of the buffer.
    DataOutOfBounds,
}

/// The contents of a texture.
pub struct TextureView {
    pub info: TexturePageInfo,
    pub palette: Seq<Colour>,
    pub pixels: Seq<u8>,
}

impl View for Texture {
    type V = TextureView;

    open spec fn view(&self) -> TextureView {
        TextureView { info: self.info, palette: self.palette.data@, pixels: self.image_data@ }
    }
}

/// A colour as stored: blue, green, red, alpha.
pub open spec fn colour_at(s: Seq<u8>, at: int) -> Colour {
    Colour { blue: s[at], green: s[at + 1], red: s[at + 2], alpha: s[at + 3] }
}

/// The 256 colours of the palette stored at `at`.
pub open spec fn palette_at(s: Seq<u8>, at: int) -> Seq<Colour> {
    Seq::new(PALETTE_COLOURS as nat, |i: int| colour_at(s, at + 4 * i))
}

/// The texture-page entry stored at `at`.
pub open spec fn page_info_at(s: Seq<u8>, at: int) -> TexturePageInfo {
    TexturePageInfo {
        width: le_u16(s, at) as u16,
        height: le_u16(s, at + 2) as u16,
        palette: le_u32(s, at + 4) as u32,
        texture_offset: le_u32(s, at + 8) as u32,
    }
}

/// Whether a texture can be drawn: nonzero dimensions, width * height pixels,
/// a palette with colours, and a colour for every pixel.
pub open spec fn valid_texture(t: TextureView) -> bool {
    &&& t.info.width != 0
    &&& t.info.height != 0
    &&& t.pixels.len() == t.info.width * t.info.height
    &&& t.palette.len() != 0
    &&& forall|i: int| 0 <= i < t.pixels.len() ==> (#[trigger] t.pixels[i]) < t.palette.len()
}

/// What building a texture from its parts gives: the first rule it breaks,
/// or the texture.
pub open spec fn texture_check(info: TexturePageInfo, palette: Seq<Colour>, pixels: Seq<u8>) -> Result<
    TextureView,
    TextureError,
> {
    if info.width == 0 || info.height == 0 || pixels.len() != info.width * info.height {
        Err(TextureError::InvalidDimensions)
    } else if palette.len() == 0 {
        Err(TextureError::MissingPalette)
    } else if exists|i: int| 0 <= i < pixels.len() && (#[trigger] pixels[i]) >= palette.len() {
        Err(TextureError::PaletteIndexOutOfBounds)
    } else {
        Ok(TextureView { info, palette, pixels })
    }
}

/// The number of pixels of a page, width * height.
fn page_area(info: &TexturePageInfo) -> (r: u64)
    ensures
        r == info.width * info.height,
        r <= 0xffff * 0xffff,
{
    let w = info.width as u64;
    let h = info.height as u64;
    assert(w * h <= 0xffff * 0xffff) by (nonlinear_arith)
        requires
            w <= 0xffff,
            h <= 0xffff,
    ;
    w * h
}

impl Texture {
    /// Builds a texture, checking in turn its dimensions, its palette, and
    /// that every pixel names a colour of the palette.
    pub fn new(info: TexturePageInfo, palette: Palette, image_data: Vec<u8>) -> (r: Result<
        Self,
        TextureError,
    >)
        ensures
            match r {
                Ok(t) => texture_check(info, palette.data@, image_data@) == Ok::<
                    TextureView,
                    TextureError,
                >(t@),
                Err(e) => texture_check(info, palette.data@, image_data@) == Err::<
                    TextureView,
                    TextureError,
                >(e),
            },
    {
        if info.width == 0 || info.height == 0 || image_data.len() as u64 != page_area(&info) {
            return Err(TextureError::InvalidDimensions);
        }
        if palette.data.len() == 0 {
            return Err(TextureError::MissingPalette);
        }
        let mut k: usize = 0;
        while k < image_data.len()
            invariant
                k <= image_data@.len(),
                info.width != 0 && info.height != 0,
                image_data@.len() == info.width * info.height,
                palette.data@.len() != 0,
                forall|i: int| 0 <= i < k ==> (#[trigger] image_data@[i]) < palette.data@.len(),
            decreases image_data@.len() - k,
        {
            if image_data[k] as usize >= palette.data.len() {
                assert(image_data@[k as int] >= palette.data@.len());
                return Err(TextureError::PaletteIndexOutOfBounds);
            }
            k = k + 1;
        }
        Ok(Texture { info, palette, image_data })
    }
}

fn read_colour(input: &[u8], at: usize) -> (r: Colour)
    requires
        at + 4 <= input@.len(),
    ensures
        r == colour_at(input@, at as int),
{
    let _len = input.len();
    Colour { blue: input[at], green: input[at + 1], red: input[at + 2], alpha: input[at + 3] }
}

fn read_palette(input: &[u8], at: usize) -> (r: Palette)
    requires
        at + PALETTE_LEN <= input@.len(),
    ensures
        r.data@ == palette_at(input@, at as int),
{
    let _len = input.len();
    let mut data: Vec<Colour> = Vec::new();
    let mut k: usize = 0;
    while k < PALETTE_COLOURS
        invariant
            k <= PALETTE_COLOURS,
            at + PALETTE_LEN <= input@.len() <= usize::MAX,
            data@.len() == k,
            forall|i: int| 0 <= i < k ==> #[trigger] data@[i] == colour_at(input@, at + 4 * i),
        decreases PALETTE_COLOURS - k,
    {
        data.push(read_colour(input, at + 4 * k));
        k = k + 1;
    }
    assert(data@ =~= palette_at(input@, at as int));
    Palette { data }
}

fn parse_texture_page_table(input: &[u8], at: usize) -> (r: TexturePageInfo)
    requires
        at + PAGE_INFO_LEN <= input@.len(),
    ensures
        r == page_info_at(input@, at as int),
{
    let _len = input.len();
    TexturePageInfo {
        width: read_u16_le(input, at),
        height: read_u16_le(input, at + 2),
        palette: read_u32_le(input, at + 4),
        texture_offset: read_u32_le(input, at + 8),
    }
}

/// `v` holds the `num` palettes stored one after another from `off`.
pub open spec fn palettes_read(s: Seq<u8>, off: int, num: int, v: Seq<Palette>) -> bool {
    &&& v.len() == num
    &&& forall|i: int|
        0 <= i < v.len() ==> (#[trigger] v[i]).data@ == palette_at(s, off + PALETTE_LEN * i)
}

/// `v` holds the `num` texture-page entries stored one after another from
/// `off`.
pub open spec fn page_infos_read(s: Seq<u8>, off: int, num: int, v: Seq<TexturePageInfo>) -> bool {
    &&& v.len() == num
    &&& forall|i: int| 0 <= i < v.len() ==> #[trigger] v[i] == page_info_at(s, off + PAGE_INFO_LEN * i)
}

/// Reads a colour from the first four bytes, stored blue, green, red, alpha.
pub fn parse_colour(input: &[u8]) -> (r: Option<Colour>)
    ensures
        r is Some <==> input@.len() >= 4,
        r matches Some(c) ==> c == colour_at(input@, 0),
{
    if input.len() < 4 {
        return None;
    }
    Some(read_colour(input, 0))
}

/// Reads a palette of 256 colours from the first 1024 bytes.
pub fn parse_palette(input: &[u8]) -> (r: Option<Palette>)
    ensures
        r is Some <==> input@.len() >= PALETTE_LEN,
        r matches Some(p) ==> p.data@ == palette_at(input@, 0),
{
    if input.len() < PALETTE_LEN {
        return None;
    }
    Some(read_palette(input, 0))
}

/// Reads the `num_palettes` palettes stored one after another from
/// `palette_data_offset`. Gives nothing when the table runs past the end of
/// the buffer.
pub fn parse_palettes(input: &[u8], palette_data_offset: usize, num_palettes: usize) -> (r: Option<
    Vec<Palette>,
>)
    ensures
        r is Some <==> palette_data_offset + PALETTE_LEN * num_palettes <= input@.len(),
        r matches Some(v) ==> palettes_read(input@, palette_data_offset as int, num_palettes as int, v@),
{
    if palette_data_offset > input.len() {
        return None;
    }
    let mut palettes: Vec<Palette> = Vec::new();
    let mut at: usize = palette_data_offset;
    while palettes.len() < num_palettes
        invariant
            palette_data_offset <= at <= input@.len(),
            palettes@.len() <= num_palettes,
            at == palette_data_offset + PALETTE_LEN * palettes@.len(),
            forall|i: int|
                0 <= i < palettes@.len() ==> (#[trigger] palettes@[i]).data@ == palette_at(
                    input@,
                    palette_data_offset + PALETTE_LEN * i,
                ),
        decreases num_palettes - palettes@.len(),
    {
        if input.len() - at < PALETTE_LEN {
            return None;
        }
        palettes.push(read_palette(input, at));
        at = at + PALETTE_LEN;
    }
    Some(palettes)
}

/// Reads the `num_textures` entries of the texture-page table from
/// `texture_page_table_offset`. Gives nothing when the table runs past the
/// end of the buffer.
pub fn parse_texture_page_infos(
    input: &[u8],
    texture_page_table_offset: usize,
    num_textures: usize,
) -> (r: Option<Vec<TexturePageInfo>>)
    ensures
        r is Some <==> texture_page_table_offset + PAGE_INFO_LEN * num_textures <= input@.len(),
        r matches Some(v) ==> page_infos_read(
            input@,
            texture_page_table_offset as int,
            num_textures as int,
            v@,
        ),
{
    if texture_page_table_offset > input.len() {
        return None;
    }
    let mut infos: Vec<TexturePageInfo> = Vec::new();
    let mut at: usize = texture_page_table_offset;
    while infos.len() < num_textures
        invariant
            texture_page_table_offset <= at <= input@.len(),
            infos@.len() <= num_textures,
            at == texture_page_table_offset + PAGE_INFO_LEN * infos@.len(),
            forall|i: int|
                0 <= i < infos@.len() ==> #[trigger] infos@[i] == page_info_at(
                    input@,
                    texture_page_table_offset + PAGE_INFO_LEN * i,
                ),
        decreases num_textures - infos@.len(),
    {
        if input.len() - at < PAGE_INFO_LEN {
            return None;
        }
        infos.push(parse_texture_page_table(input, at));
        at = at + PAGE_INFO_LEN;
    }
    Some(infos)
}

/// Where a page's pixels start in the container.
pub open spec fn pixels_start(header: BtpHeader, info: TexturePageInfo) -> int {
    header.texture_data_offset + info.texture_offset
}

/// Copies the width * height pixel indices of a page out of the container.
/// Gives nothing when they run past the end of the buffer.
pub fn parse_texture_data(input: &[u8], header: &BtpHeader, texture_page_info: &TexturePageInfo) -> (r:
    Option<Vec<u8>>)
    ensures
        ({
            let start = pixels_start(*header, *texture_page_info);
            let end = start + texture_page_info.width * texture_page_info.height;
            &&& r is Some <==> end <= input@.len()
            &&& r matches Some(v) ==> v@ == input@.subrange(start, end)
        }),
{
    let start: u64 = header.texture_data_offset as u64 + texture_page_info.texture_offset as u64;
    let count: u64 = page_area(texture_page_info);
    if start + count > input.len() as u64 {
        return None;
    }
    let start = start as usize;
    let end = start + count as usize;
    let mut data: Vec<u8> = Vec::new();
    let mut k: usize = start;
    while k < end
        invariant
            start <= k <= end,
            end <= input@.len(),
            data@ == input@.subrange(start as int, k as int),
        decreases end - k,
    {
        data.push(input[k]);
        k = k + 1;
        assert(data@ =~= input@.subrange(start as int, k as int));
    }
    Some(data)
}

/// Whether the palette table holds palette `p` whole.
pub open spec fn palette_present(s: Seq<u8>, h: BtpHeader, p: int) -> bool {
    p < h.num_palettes && h.palette_data_offset + PALETTE_LEN * (p + 1) <= s.len()
}

/// What decoding page `i` of a container gives: nothing for a page of zero
/// width or height, else the texture or why it could not be had.
pub open spec fn page_outcome(s: Seq<u8>, h: BtpHeader, i: int) -> Option<
    Result<TextureView, TextureError>,
> {
    let entry = h.texture_page_table_offset + PAGE_INFO_LEN * i;
    if entry + PAGE_INFO_LEN > s.len() {
        Some(Err(TextureError::DataOutOfBounds))
    } else {
        let info = page_info_at(s, entry);
        if info.width == 0 || info.height == 0 {
            None
        } else if !palette_present(s, h, info.palette as int) {
            Some(Err(TextureError::MissingPalette))
        } else {
            let start = pixels_start(h, info);
            let end = start + info.width * info.height;
            if end > s.len() {
                Some(Err(TextureError::DataOutOfBounds))
            } else {
                Some(
                    texture_check(
                        info,
                        palette_at(s, h.palette_data_offset + PALETTE_LEN * info.palette),
                        s.subrange(start, end),
                    ),
                )
            }
        }
    }
}

/// The outcomes of the pages below `n` that are not skipped, in page order,
/// each with its page number.
pub open spec fn page_outcomes(s: Seq<u8>, h: BtpHeader, n: nat) -> Seq<
    (int, Result<TextureView, TextureError>),
>
    decreases n,
{
    if n == 0 {
        Seq::empty()
    } else {
        let prev = page_outcomes(s, h, (n - 1) as nat);
        match page_outcome(s, h, n - 1) {
            Some(o) => prev.push((n - 1, o)),
            None => prev,
        }
    }
}

/// What decoding a whole container gives: nothing when it has no pages or no
/// palettes, else the outcome of each page that is not skipped.
pub open spec fn textures_of(s: Seq<u8>, h: BtpHeader) -> Seq<(int, Result<TextureView, TextureError>)> {
    if h.num_textures == 0 || h.num_palettes == 0 {
        Seq::empty()
    } else {
        page_outcomes(s, h, h.num_textures as nat)
    }
}

pub open spec fn outcome_view(r: Result<Texture, TextureError>) -> Result<TextureView, TextureError> {
    match r {
        Ok(t) => Ok(t@),
        Err(e) => Err(e),
    }
}

/// The decoded pages `r` are those that `m` describes.
pub open spec fn outcomes_match(
    r: Seq<(usize, Result<Texture, TextureError>)>,
    m: Seq<(int, Result<TextureView, TextureError>)>,
) -> bool {
    &&& r.len() == m.len()
    &&& forall|k: int|
        0 <= k < r.len() ==> (#[trigger] r[k]).0 as int == m[k].0 && outcome_view(r[k].1) == m[k].1
}

/// Decodes one page, reading its table entry and its palette from the
/// container; a table cut short fails only the pages that lie past its end.
fn decode_page(input: &[u8], header: &BtpHeader, i: usize) -> (r: Option<Result<Texture, TextureError>>)
    requires
        i < header.num_textures,
    ensures
        match page_outcome(input@, *header, i as int) {
            None => r is None,
            Some(o) => r matches Some(x) && outcome_view(x) == o,
        },
{
    let entry: u64 = header.texture_page_table_offset as u64 + PAGE_INFO_LEN as u64 * i as u64;
    if entry + PAGE_INFO_LEN as u64 > input.len() as u64 {
        return Some(Err(TextureError::DataOutOfBounds));
    }
    let info = parse_texture_page_table(input, entry as usize);
    if info.width == 0 || info.height == 0 {
        return None;
    }
    let p = info.palette as u64;
    if p >= header.num_palettes as u64 || header.palette_data_offset as u64 + PALETTE_LEN as u64 * (
    p + 1) > input.len() as u64 {
        return Some(Err(TextureError::MissingPalette));
    }
    let palette = read_palette(input, (header.palette_data_offset as u64 + PALETTE_LEN as u64 * p) as usize);
    let data = match parse_texture_data(input, header, &info) {
        None => {
            return Some(Err(TextureError::DataOutOfBounds));
        },
        Some(d) => d,
    };
    Some(Texture::new(info, palette, data))
}

/// Decodes the texture pages of a container, in page order. A page of zero
/// width or height is skipped; a page that cannot be decoded is listed with
/// its error, and the pages after it are decoded all the same. A container
/// without pages or without palettes gives no textures.
pub fn parse_textures(input: &[u8], header: &BtpHeader) -> (r: Vec<(usize, Result<Texture, TextureError>)>)
    ensures
        outcomes_match(r@, textures_of(input@, *header)),
{
    let mut textures: Vec<(usize, Result<Texture, TextureError>)> = Vec::new();
    if header.num_textures == 0 || header.num_palettes == 0 {
        return textures;
    }
    let mut i: usize = 0;
    while i < header.num_textures as usize
        invariant
            i <= header.num_textures,
            outcomes_match(textures@, page_outcomes(input@, *header, i as nat)),
        decreases header.num_textures - i,
    {
        match decode_page(input, header, i) {
            Some(outcome) => {
                textures.push((i, outcome));
            },
            None => {},
        }
        i = i + 1;
    }
    textures
}

/// A page of zero width or height is left out of a container's textures, and
/// does not keep any other page out: each page that is listed is one that is
/// not skipped, with its own outcome, and each page that is not skipped is
/// listed.
pub proof fn lemma_zero_pages_skipped(s: Seq<u8>, h: BtpHeader, n: nat)
    ensures
        forall|k: int|
            0 <= k < page_outcomes(s, h, n).len() ==> {
                let (i, o) = #[trigger] page_outcomes(s, h, n)[k];
                &&& 0 <= i < n
                &&& page_outcome(s, h, i) == Some(o)
            },
        forall|i: int|
            0 <= i < n && (#[trigger] page_outcome(s, h, i)) is Some ==> exists|k: int|
                0 <= k < page_outcomes(s, h, n).len() && (#[trigger] page_outcomes(s, h, n)[k]).0
                    == i,
    decreases n,
{
    if n > 0 {
        lemma_zero_pages_skipped(s, h, (n - 1) as nat);
        let prev = page_outcomes(s, h, (n - 1) as nat);
        let cur = page_outcomes(s, h, n);
        assert forall|i: int|
            0 <= i < n && (#[trigger] page_outcome(s, h, i)) is Some implies exists|k: int|
                0 <= k < cur.len() && (#[trigger] cur[k]).0 == i by {
            if i < n - 1 {
                let k = choose|k: int| 0 <= k < prev.len() && (#[trigger] prev[k]).0 == i;
                assert(cur[k] == prev[k]);
            } else {
                assert(cur[cur.len() - 1].0 == i);
            }
        }
    }
}

/// Where the table entry of page `i` starts.
pub open spec fn page_entry(h: BtpHeader, i: int) -> int {
    h.texture_page_table_offset + PAGE_INFO_LEN * i
}

/// Whether `a` and `b` hold the same bytes everywhere outside `[lo, hi)`.
pub open spec fn same_outside(a: Seq<u8>, b: Seq<u8>, lo: int, hi: int) -> bool {
    &&& a.len() == b.len()
    &&& forall|k: int| 0 <= k < a.len() && !(lo <= k < hi) ==> #[trigger] a[k] == b[k]
}

/// Whether the palette and the pixels that page `i` names in `s` lie outside
/// `[lo, hi)` (a page of zero width or height reads neither).
pub open spec fn page_reads_outside(s: Seq<u8>, h: BtpHeader, i: int, lo: int, hi: int) -> bool {
    let info = page_info_at(s, page_entry(h, i));
    let pal = h.palette_data_offset + PALETTE_LEN * info.palette;
    let start = pixels_start(h, info);
    let end = start + info.width * info.height;
    info.width != 0 && info.height != 0 ==> {
        &&& (pal + PALETTE_LEN <= lo || hi <= pal)
        &&& (end <= lo || hi <= start)
    }
}

/// Keeps the outcomes of every page but page `j`.
pub open spec fn not_page(j: int) -> spec_fn((int, Result<TextureView, TextureError>)) -> bool {
    |o: (int, Result<TextureView, TextureError>)| o.0 != j
}

proof fn lemma_page_unchanged(s: Seq<u8>, s2: Seq<u8>, h: BtpHeader, j: int, i: int)
    requires
        0 <= i,
        0 <= j,
        i != j,
        same_outside(s, s2, page_entry(h, j), page_entry(h, j) + PAGE_INFO_LEN),
        page_entry(h, i) + PAGE_INFO_LEN <= s.len() ==> page_reads_outside(
            s,
            h,
            i,
            page_entry(h, j),
            page_entry(h, j) + PAGE_INFO_LEN,
        ),
    ensures
        page_outcome(s2, h, i) == page_outcome(s, h, i),
{
    let e = page_entry(h, i);
    if e + PAGE_INFO_LEN <= s.len() {
        assert(page_info_at(s2, e) == page_info_at(s, e));
        let info = page_info_at(s, e);
        if info.width != 0 && info.height != 0 {
            let pal = h.palette_data_offset + PALETTE_LEN * info.palette;
            if palette_present(s, h, info.palette as int) {
                assert(palette_at(s2, pal) =~= palette_at(s, pal));
            }
            let start = pixels_start(h, info);
            let end = start + info.width * info.height;
            if end <= s.len() {
                assert(s2.subrange(start, end) =~= s.subrange(start, end));
            }
        }
    }
}

proof fn lemma_outcomes_without_page(s: Seq<u8>, s2: Seq<u8>, h: BtpHeader, j: int, n: nat)
    requires
        0 <= j,
        page_entry(h, j) + PAGE_INFO_LEN <= s.len(),
        same_outside(s, s2, page_entry(h, j), page_entry(h, j) + PAGE_INFO_LEN),
        page_info_at(s2, page_entry(h, j)).width == 0 || page_info_at(s2, page_entry(h, j)).height
            == 0,
        forall|i: int|
            0 <= i < n && i != j && page_entry(h, i) + PAGE_INFO_LEN <= s.len() ==> #[trigger]
                page_reads_outside(s, h, i, page_entry(h, j), page_entry(h, j) + PAGE_INFO_LEN),
    ensures
        page_outcomes(s2, h, n) == page_outcomes(s, h, n).filter(not_page(j)),
    decreases n,
{
    reveal(Seq::filter);
    if n == 0 {
        assert(page_outcomes(s, h, 0).filter(not_page(j)) =~= Seq::empty());
    } else {
        let m = (n - 1) as nat;
        lemma_outcomes_without_page(s, s2, h, j, m);
        let prev = page_outcomes(s, h, m);
        if m != j {
            if page_entry(h, m as int) + PAGE_INFO_LEN <= s.len() {
                assert(page_reads_outside(
                    s,
                    h,
                    m as int,
                    page_entry(h, j),
                    page_entry(h, j) + PAGE_INFO_LEN,
                ));
            }
            lemma_page_unchanged(s, s2, h, j, m as int);
        }
        if let Some(o) = page_outcome(s, h, m as int) {
            let cur = prev.push((m as int, o));
            assert(cur.drop_last() =~= prev);
        }
    }
}

/// Setting the width or the height of page `j` to zero, in bytes that no
/// other page reads, takes page `j` out of a container's textures and changes
/// nothing else: every other page decodes as before, in the same order.
pub proof fn lemma_zero_page_removed(s: Seq<u8>, s2: Seq<u8>, h: BtpHeader, j: int)
    requires
        0 <= j < h.num_textures,
        page_entry(h, j) + PAGE_INFO_LEN <= s.len(),
        same_outside(s, s2, page_entry(h, j), page_entry(h, j) + PAGE_INFO_LEN),
        page_info_at(s2, page_entry(h, j)).width == 0 || page_info_at(s2, page_entry(h, j)).height
            == 0,
        forall|i: int|
            0 <= i < h.num_textures && i != j && page_entry(h, i) + PAGE_INFO_LEN <= s.len()
                ==> #[trigger] page_reads_outside(
                s,
                h,
                i,
                page_entry(h, j),
                page_entry(h, j) + PAGE_INFO_LEN,
            ),
    ensures
        textures_of(s2, h) == textures_of(s, h).filter(not_page(j)),
{
    reveal(Seq::filter);
    if h.num_textures == 0 || h.num_palettes == 0 {
        assert(textures_of(s, h).filter(not_page(j)) =~= Seq::empty());
    } else {
        lemma_outcomes_without_page(s, s2, h, j, h.num_textures as nat);
    }
}

/// Channel `k` of a colour in presentation order: red, green, blue, alpha.
pub open spec fn channel(c: Colour, k: int) -> u8 {
    if k == 0 {
        c.red
    } else if k == 1 {
        c.green
    } else if k == 2 {
        c.blue
    } else {
        c.alpha
    }
}

/// The texture as red, green, blue and alpha bytes, pixel by pixel and row by
/// row: the pixel at column x and row y takes the colour that the index at
/// y * width + x names.
pub open spec fn rgba_of(t: TextureView) -> Seq<u8> {
    Seq::new(4 * t.pixels.len(), |k: int| channel(t.palette[t.pixels[k / 4] as int], k % 4))
}

proof fn lemma_quad(j: int, c: int)
    requires
        0 <= j,
        0 <= c < 4,
    ensures
        (4 * j + c) / 4 == j,
        (4 * j + c) % 4 == c,
{
}

impl Texture {
    /// Whether the texture can be drawn: nonzero dimensions, width * height
    /// pixels, and a colour of the palette for every pixel.
    pub fn is_valid(&self) -> (r: bool)
        ensures
            r == valid_texture(self@),
    {
        if self.info.width == 0 || self.info.height == 0 || self.image_data.len() as u64
            != page_area(&self.info) || self.palette.data.len() == 0 {
            return false;
        }
        let mut k: usize = 0;
        while k < self.image_data.len()
            invariant
                k <= self.image_data@.len(),
                forall|i: int| 0 <= i < k ==> (#[trigger] self.image_data@[i]) < self.palette.data@.len(),
            decreases self.image_data@.len() - k,
        {
            if self.image_data[k] as usize >= self.palette.data.len() {
                return false;
            }
            k = k + 1;
        }
        true
    }

    /// The texture's colours, red, green, blue and alpha for each pixel in
    /// turn.
    pub fn rgba_pixels(&self) -> (r: Vec<u8>)
        requires
            valid_texture(self@),
        ensures
            r@ == rgba_of(self@),
    {
        let ghost t = self@;
        let mut out: Vec<u8> = Vec::new();
        let mut j: usize = 0;
        while j < self.image_data.len()
            invariant
                t == self@,
                valid_texture(t),
                j <= t.pixels.len(),
                out@ == rgba_of(t).subrange(0, 4 * j),
            decreases t.pixels.len() - j,
        {
            let c = self.palette.data[self.image_data[j] as usize];
            out.push(c.red);
            out.push(c.green);
            out.push(c.blue);
            out.push(c.alpha);
            proof {
                assert forall|k: int| 0 <= k < 4 * (j + 1) implies #[trigger] out@[k] == rgba_of(t)[k] by {
                    if k >= 4 * j {
                        lemma_quad(j as int, k - 4 * j);
                    }
                }
                assert(out@ =~= rgba_of(t).subrange(0, 4 * (j + 1)));
            }
            j = j + 1;
        }
        assert(out@ =~= rgba_of(t));
        out
    }
}

} // verus!
