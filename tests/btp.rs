use rollcage_file_parser::file_formats::btp::{
    parse_btp_header, parse_colour, parse_palette, parse_palettes, parse_texture_data,
    parse_texture_page_infos, parse_textures, Colour, Palette, Texture, TextureError,
    TexturePageInfo,
};
use rollcage_file_parser::file_formats::HeaderError;

const TABLE: usize = 64;

/// A container with the given pages, `num_palettes` palettes in the header
/// and one palette stored, whose colour i is (b, g, r, a) = (i, i+1, i+2, i+3),
/// and the pixel bytes after it.
fn container(pages: &[(u16, u16, u32, u32)], num_palettes: u16, pixels: &[u8]) -> Vec<u8> {
    let palette_at = TABLE + 12 * pages.len();
    let pixels_at = palette_at + 1024;
    let mut v = b"BTP ".to_vec();
    let mut words = [0u32; 12];
    words[8] = pixels_at as u32; // texture data offset, at byte 36
    for w in words {
        v.extend_from_slice(&w.to_le_bytes());
    }
    v.extend_from_slice(&(pages.len() as u16).to_le_bytes());
    v.extend_from_slice(&num_palettes.to_le_bytes());
    v.extend_from_slice(&(TABLE as u32).to_le_bytes());
    v.extend_from_slice(&(palette_at as u32).to_le_bytes());
    assert_eq!(v.len(), TABLE);
    for &(w, h, p, off) in pages {
        v.extend_from_slice(&w.to_le_bytes());
        v.extend_from_slice(&h.to_le_bytes());
        v.extend_from_slice(&p.to_le_bytes());
        v.extend_from_slice(&off.to_le_bytes());
    }
    for i in 0..256u32 {
        for k in 0..4u32 {
            v.push(((i + k) % 256) as u8);
        }
    }
    v.extend_from_slice(pixels);
    v
}

fn info(width: u16, height: u16) -> TexturePageInfo {
    TexturePageInfo { width, height, palette: 0, texture_offset: 0 }
}

fn two_colours() -> Palette {
    Palette {
        data: vec![
            Colour { red: 1, green: 2, blue: 3, alpha: 4 },
            Colour { red: 5, green: 6, blue: 7, alpha: 8 },
        ],
    }
}

#[test]
fn colour_is_stored_blue_green_red_alpha() {
    let c = parse_colour(&[0x10, 0x20, 0x30, 0xFF]).unwrap();
    assert_eq!(c, Colour { red: 0x30, green: 0x20, blue: 0x10, alpha: 0xFF });
    assert!(parse_colour(&[1, 2, 3]).is_none());
}

#[test]
fn palette_has_256_colours() {
    let bytes: Vec<u8> = (0..1024u32).map(|i| (i % 256) as u8).collect();
    let p = parse_palette(&bytes).unwrap();
    assert_eq!(p.data.len(), 256);
    assert_eq!(p.data[1], Colour { red: 6, green: 5, blue: 4, alpha: 7 });
    assert!(parse_palette(&bytes[..1023]).is_none());
}

#[test]
fn palettes_need_the_whole_table() {
    let bytes = vec![0u8; 8 + 2 * 1024 + 100];
    assert_eq!(parse_palettes(&bytes, 8, 2).unwrap().len(), 2);
    assert_eq!(parse_palettes(&bytes, 8, 1).unwrap().len(), 1);
    assert!(parse_palettes(&bytes, 8, 0).unwrap().is_empty());
    assert!(parse_palettes(&bytes, 8, 3).is_none());
    assert!(parse_palettes(&bytes, 8, 5).is_none());
    assert!(parse_palettes(&bytes, bytes.len() + 1, 1).is_none());
}

#[test]
fn page_infos_read_little_endian() {
    let bytes = [0xFFu8, 2, 0, 3, 4, 0, 0, 0, 5, 0, 0, 1, 9];
    let infos = parse_texture_page_infos(&bytes, 0, 1).unwrap();
    assert_eq!(infos, vec![TexturePageInfo { width: 0x2FF, height: 0x300, palette: 4, texture_offset: 0x0100_0005 }]);
}

#[test]
fn page_infos_need_the_whole_table() {
    let bytes = [1u8; 13];
    assert!(parse_texture_page_infos(&bytes, 0, 2).is_none());
    assert!(parse_texture_page_infos(&bytes, 2, 1).is_none());
    assert!(parse_texture_page_infos(&bytes, 14, 1).is_none());
    assert_eq!(parse_texture_page_infos(&bytes, 1, 1).unwrap().len(), 1);
}

#[test]
fn header_fields_are_read() {
    let bytes = container(&[(2, 1, 0, 0)], 1, &[0, 1]);
    let h = parse_btp_header(&bytes).unwrap();
    assert_eq!(h.signature, *b"BTP ");
    assert_eq!(h.num_textures, 1);
    assert_eq!(h.num_palettes, 1);
    assert_eq!(h.texture_page_table_offset, 64);
    assert_eq!(h.palette_data_offset, 76);
    assert_eq!(h.texture_data_offset, 76 + 1024);
    assert!(matches!(parse_btp_header(&bytes[..63]), Err(HeaderError::Truncated)));
    assert!(matches!(parse_btp_header(b"BTX "), Err(HeaderError::BadSignature)));
}

#[test]
fn texture_data_is_sliced_from_offsets() {
    let bytes = container(&[(2, 2, 0, 1)], 1, &[9, 8, 7, 6, 5]);
    let h = parse_btp_header(&bytes).unwrap();
    let page = TexturePageInfo { width: 2, height: 2, palette: 0, texture_offset: 1 };
    assert_eq!(parse_texture_data(&bytes, &h, &page).unwrap(), vec![8, 7, 6, 5]);
    let far = TexturePageInfo { texture_offset: 2, ..page };
    assert!(parse_texture_data(&bytes, &h, &far).is_none());
}

#[test]
fn texture_new_accepts_valid_parts() {
    let t = Texture::new(info(2, 2), two_colours(), vec![0, 1, 1, 0]).unwrap();
    assert!(t.is_valid());
    assert_eq!(t.image_data, vec![0, 1, 1, 0]);
    assert_eq!(t.rgba_pixels(), vec![1, 2, 3, 4, 5, 6, 7, 8, 5, 6, 7, 8, 1, 2, 3, 4]);
}

#[test]
fn texture_new_rejects_zero_dimensions() {
    let e = Texture::new(info(0, 2), two_colours(), vec![]).unwrap_err();
    assert_eq!(e, TextureError::InvalidDimensions);
    let e = Texture::new(info(2, 0), two_colours(), vec![]).unwrap_err();
    assert_eq!(e, TextureError::InvalidDimensions);
}

#[test]
fn texture_new_rejects_wrong_pixel_count() {
    let e = Texture::new(info(2, 2), two_colours(), vec![0, 1, 1]).unwrap_err();
    assert_eq!(e, TextureError::InvalidDimensions);
}

#[test]
fn texture_new_rejects_empty_palette() {
    let e = Texture::new(info(1, 1), Palette { data: vec![] }, vec![0]).unwrap_err();
    assert_eq!(e, TextureError::MissingPalette);
}

#[test]
fn texture_new_rejects_any_pixel_outside_palette() {
    let e = Texture::new(info(3, 1), two_colours(), vec![0, 2, 1]).unwrap_err();
    assert_eq!(e, TextureError::PaletteIndexOutOfBounds);
}

#[test]
fn no_pages_gives_no_textures() {
    let bytes = container(&[], 3, &[]);
    let h = parse_btp_header(&bytes).unwrap();
    assert!(parse_textures(&bytes, &h).is_empty());
}

#[test]
fn no_palettes_gives_no_textures() {
    let bytes = container(&[(1, 1, 0, 0)], 0, &[0]);
    let h = parse_btp_header(&bytes).unwrap();
    assert!(parse_textures(&bytes, &h).is_empty());
}

#[test]
fn zero_sized_page_is_skipped() {
    let bytes = container(&[(0, 2, 0, 0), (2, 1, 0, 0), (3, 0, 0, 0)], 1, &[1, 0]);
    let h = parse_btp_header(&bytes).unwrap();
    let textures = parse_textures(&bytes, &h);
    assert_eq!(textures.len(), 1);
    assert_eq!(textures[0].0, 1);
    let t = textures[0].1.as_ref().unwrap();
    assert_eq!(t.info, TexturePageInfo { width: 2, height: 1, palette: 0, texture_offset: 0 });
    assert_eq!(t.palette.data.len(), 256);
    assert_eq!(t.image_data, vec![1, 0]);
    assert_eq!(t.rgba_pixels(), vec![3, 2, 1, 4, 2, 1, 0, 3]);
}

#[test]
fn failing_page_does_not_stop_the_others() {
    let bytes = container(&[(1, 1, 5, 0), (1, 1, 0, 9), (1, 1, 0, 1)], 1, &[0, 7]);
    let h = parse_btp_header(&bytes).unwrap();
    let textures = parse_textures(&bytes, &h);
    assert_eq!(textures.len(), 3);
    assert_eq!(textures[0].0, 0);
    assert_eq!(textures[0].1.as_ref().unwrap_err(), &TextureError::MissingPalette);
    assert_eq!(textures[1].0, 1);
    assert_eq!(textures[1].1.as_ref().unwrap_err(), &TextureError::DataOutOfBounds);
    assert_eq!(textures[2].0, 2);
    assert_eq!(textures[2].1.as_ref().unwrap().image_data, vec![7]);
}

#[test]
fn page_table_past_end_is_reported_per_page() {
    let mut bytes = container(&[(1, 1, 0, 0)], 1, &[0]);
    // more pages than the table holds: page 1 lies over the palette, page 2 past the end
    bytes[52] = 2;
    bytes[56] = (bytes.len() - 12) as u8;
    bytes[57] = ((bytes.len() - 12) >> 8) as u8;
    let h = parse_btp_header(&bytes).unwrap();
    let textures = parse_textures(&bytes, &h);
    assert_eq!(textures.len(), 2);
    assert_eq!(textures[1].1.as_ref().unwrap_err(), &TextureError::DataOutOfBounds);
}

#[test]
fn zeroing_a_page_leaves_the_others_unchanged() {
    let pages = [(2, 1, 0, 0), (1, 1, 0, 2), (1, 2, 0, 3)];
    let bytes = container(&pages, 1, &[1, 0, 5, 6, 7]);
    let mut zeroed = bytes.clone();
    // width of page 1, at the start of its table entry
    zeroed[64 + 12] = 0;
    zeroed[64 + 12 + 1] = 0;
    let h = parse_btp_header(&bytes).unwrap();
    let before = parse_textures(&bytes, &h);
    let after = parse_textures(&zeroed, &h);
    assert_eq!(before.len(), 3);
    assert_eq!(after.len(), 2);
    let kept: Vec<_> = before.iter().filter(|(page, _)| *page != 1).collect();
    for ((p1, r1), (p2, r2)) in kept.iter().map(|x| (x.0, &x.1)).zip(after.iter().map(|x| (x.0, &x.1))) {
        assert_eq!(p1, p2);
        let (t1, t2) = (r1.as_ref().unwrap(), r2.as_ref().unwrap());
        assert_eq!(t1.info, t2.info);
        assert_eq!(t1.image_data, t2.image_data);
        assert_eq!(t1.palette.data, t2.palette.data);
    }
    assert_eq!(after[1].1.as_ref().unwrap().image_data, vec![6, 7]);
}
